//! Proxies: what is known of an endpoint.

pub mod client;
pub mod models;

//! Geolocation of proxies and the databases behind it.

pub mod database;
pub mod ip_type;
pub mod lookup;
pub mod models;

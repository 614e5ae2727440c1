pub mod double;
pub mod error;
pub mod fetcher;
pub mod filters;
pub mod geolookup;
pub mod ipv6;
pub mod logging;
pub mod negotiators;
pub mod net;
pub mod order;
pub mod providers;
pub mod proxy;
pub mod resolver;
pub mod rotator;
pub mod source;
pub mod text;
pub mod tui;
pub mod version;
pub mod wizard;

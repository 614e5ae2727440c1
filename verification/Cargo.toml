[package]
name = "flx"
version = "0.1.0"
edition = "2021"
publish = false

[dependencies]
anyhow = "1"
base64 = "0.22"
clap = { version = "4", features = ["derive"] }
crossterm = { version = "0.29", features = ["event-stream"] }
directories = "6"
fs2 = "0.4"
futures-util = "0.3"
hashbrown = "0.15"
http-body-util = "0.1"
httparse = "1"
hyper = { version = "1", features = ["client", "http1"] }
hyper-tls = "0.6"
hyper-util = { version = "0.1", features = ["client", "client-legacy", "http1", "tokio"] }
log = { version = "0.4", features = ["std"] }
maxminddb = "*"
ratatui = "0.30"
regex = "1"
rustls-native-certs = "0.8"
scraper = "*"
serde = { version = "1", features = ["derive"] }
serde_json = "1"
tokio = { version = "1", features = ["full"] }
tokio-rustls = { version = "0.26", default-features = false, features = ["ring", "tls12"] }
unicode-width = "0.2"
url = "2"
webpki-roots = "*"

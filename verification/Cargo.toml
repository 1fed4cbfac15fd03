[package]
name = "shopify-scraper"
version = "0.1.0"
edition = "2021"
publish = false

[dependencies]
regex = "1"
url = "2"
serde_json = "1"
chrono = { version = "0.4", features = ["serde"] }
serde = { version = "1", features = ["derive"] }
anyhow = "1"
tokio = { version = "1", features = ["rt-multi-thread", "macros", "sync", "time"] }
reqwest = { version = "0.12", default-features = false, features = ["json", "rustls-tls", "gzip", "brotli"] }
futures = "0.3"
moka = { version = "0.12", features = ["future"] }
crossbeam = "0.8"
clap = { version = "4", features = ["derive"] }
csv = "1"
tracing = "0.1"
tracing-subscriber = "0.3"
rand = "0.8"

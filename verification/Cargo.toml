[package]
name = "webpage_info"
version = "1.0.0"
edition = "2021"
publish = false

[dependencies]
scraper = "=0.29.0"
ego-tree = "=0.11.1"
serde_json = "=1.0.154"
url = "=2.5.8"
serde = { version = "=1.0.229", features = ["derive"] }
thiserror = "=2.0.21"
futures-util = "=0.3.34"
tokio = { version = "=1.54.1", features = ["net"] }
reqwest = { version = "=0.12.28", default-features = false, features = ["stream", "rustls-tls"] }

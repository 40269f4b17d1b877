[package]
name = "ct-firehose-filter"
version = "0.1.0"
edition = "2021"
publish = false

[dependencies]
addr = "*"
aho-corasick = "1"
anyhow = "1"
arc-swap = "1"
async-trait = "0.1"
aws-config = "1"
aws-sdk-sqs = "1"
axum = "0.8"
chrono = "0.4"
flate2 = "1"
futures-util = "0.3"
rusqlite = { version = "*", features = ["bundled"] }
serde = { version = "1", features = ["derive"] }
serde_json = "1"
serde_json_borrow = "*"
sha2 = "0.10"
thiserror = "2"
tikv-jemallocator = "*"
tokio = { version = "1", features = ["full"] }
tokio-tungstenite = { version = "*", features = ["rustls-tls-webpki-roots"] }
tokio-util = "0.7"
tracing = "0.1"
tracing-subscriber = { version = "0.3", features = ["env-filter"] }

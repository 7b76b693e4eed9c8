[package]
name = "cbor_web"
version = "0.1.0"
edition = "2021"
publish = false

[dependencies]
ciborium = "=0.2.2"
sha2 = "=0.10.9"
sha3 = "=0.10.9"
hex = "=0.4.3"
serde = { version = "=1.0.229", features = ["derive"] }
serde_json = "=1.0.154"
scraper = "=0.20.0"
ego-tree = "=0.6.3"
clap = { version = "=4.6.7", features = ["derive"] }
tokio = { version = "=1.54.1", features = ["rt-multi-thread", "macros", "time", "fs", "net", "sync"] }
reqwest = { version = "=0.12.28", default-features = false, features = ["rustls-tls"] }
axum = { version = "=0.7.9", features = ["multipart", "macros"] }
tower-http = { version = "=0.6.11", features = ["cors"] }
tracing = "=0.1.44"
tracing-subscriber = { version = "=0.3.23", features = ["env-filter"] }
chrono = "=0.4.45"
uuid = { version = "=1.29.0", features = ["v4"] }
walkdir = "=2.5.0"
zip = { version = "=2.6.1", default-features = false, features = ["deflate"] }
dirs-next = "=2.0.0"

[package]
name = "connector"
version = "0.1.0"
edition = "2021"
publish = false

[dependencies]
anyhow = "=1.0.104"
chrono = "=0.4.45"
flate2 = "=1.1.10"
futures-util = "=0.3.34"
hashbrown = "=0.15.5"
reqwest = { version = "=0.12.28", default-features = false, features = ["json", "rustls-tls"] }
serde = { version = "=1.0.229", features = ["derive"] }
serde_json = { version = "=1.0.154", features = ["raw_value"] }
thiserror = "=2.0.21"
tokio = { version = "=1.54.1", features = ["rt", "rt-multi-thread", "macros", "sync", "time"] }
tokio-tungstenite = { version = "=0.26.2", default-features = false, features = ["connect", "handshake", "rustls-tls-webpki-roots"] }
toml = "=0.8.23"
tracing = "=0.1.44"

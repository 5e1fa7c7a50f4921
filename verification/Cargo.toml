[package]
name = "azoth-balancer"
version = "0.3.0"
edition = "2021"
publish = false

[dependencies]
axum = "0.6"
bytes = "1"
clap = { version = "4", features = ["derive"] }
parking_lot = "0.12"
prometheus = "0.13"
ratelimit_meter = "5"
reqwest = { version = "0.11", default-features = false, features = ["rustls-tls"] }
serde = { version = "1", features = ["derive"] }
serde_json = "1"
thiserror = "1"
tokio = { version = "1", features = ["full"] }
toml = "0.8"
tracing = "0.1"
tracing-subscriber = "0.3"

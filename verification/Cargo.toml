[package]
name = "cursor-bridge"
version = "0.1.0"
edition = "2021"
publish = false

[dependencies]
serde_json = "1"
axum = "0.7"
tokio = { version = "1", features = ["full"] }
tracing = "0.1"
tracing-subscriber = { version = "0.3", features = ["env-filter"] }
futures-util = "0.3"
async-stream = "0.3"

[package]
name = "hydrogen"
version = "0.1.0"
edition = "2021"
publish = false

[dependencies]
zstd = "0.13"
tokio = { version = "1", features = ["full"] }
tracing = "0.1"
tracing-subscriber = "0.3"
serde = { version = "1", features = ["derive"] }
serde_json = "1"

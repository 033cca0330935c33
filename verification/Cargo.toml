[package]
name = "tags_server"
version = "0.1.0"
edition = "2021"
publish = false

[dependencies]
anyhow = "*"
axum = "*"
serde_json = "*"
tokio = { version = "*", features = ["rt-multi-thread", "macros", "net"] }
tracing = "*"
tracing-subscriber = "*"

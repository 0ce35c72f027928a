[package]
name = "post_feed"
version = "0.1.0"
edition = "2021"
publish = false

[dependencies]
axum = "*"
tokio = { version = "*", features = ["full"] }
maud = "*"
askama = "*"
serde = { version = "*", features = ["derive"] }
tracing = "*"
tracing-subscriber = "*"

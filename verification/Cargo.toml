[package]
name = "bottlerocket_settings_sdk"
version = "0.1.0"
edition = "2021"
publish = false

[dependencies]
argh = "0.1"
serde = { version = "1", features = ["derive"] }
serde_json = "1"
snafu = "0.8"
tracing = "0.1"

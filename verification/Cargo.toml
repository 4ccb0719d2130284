[package]
name = "powerstatus_api"
version = "0.1.0"
edition = "2021"
publish = false

[dependencies]
build_html = "=2.8.0"
anyhow = "=1.0.104"
serde = { version = "=1.0.229", features = ["derive"] }
serde_json = "=1.0.154"
spin-sdk = "=3.1.1"

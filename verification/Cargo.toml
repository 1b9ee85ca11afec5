[package]
name = "maki_providers"
version = "0.1.0"
edition = "2021"
publish = false

[dependencies]
serde = { version = "1", features = ["derive"] }
serde_json = "1"
flume = "0.11"
futures-lite = "2"
smol = "2"
isahc = "1"
tracing = "0.1"

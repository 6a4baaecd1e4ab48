[package]
name = "tracing_microjson"
version = "0.1.0"
edition = "2021"
publish = false

[dependencies]
tracing-core = "0.1"
tracing-subscriber = "0.3"

[dev-dependencies]
serde_json = "1"

[package]
name = "engine"
version = "0.1.0"
edition = "2021"
publish = false

[dependencies]
hecs = "*"
serde = { version = "*", features = ["derive"] }
serde_json = "*"
tracing = "*"

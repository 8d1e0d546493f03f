[package]
name = "model_core"
version = "0.1.0"
edition = "2021"
publish = false

[dependencies]
uuid = { version = "*", features = ["v4"] }
serde_json = "1"
serde = { version = "1", features = ["derive"] }
cgmath = "*"

[package]
name = "cognitora"
version = "0.1.0"
edition = "2021"
publish = false

[dependencies]
blake3 = "=1.8.7"
serde = { version = "=1.0.229", features = ["derive"] }
serde_json = "=1.0.154"
minijinja = "=3.0.5"
sha2 = "=0.11.1"
uuid = { version = "1", features = ["v4"] }

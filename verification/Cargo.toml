[package]
name = "proxy_engine"
version = "0.1.0"
edition = "2021"
publish = false

[dependencies]
blake2 = "*"
serde = { version = "*", features = ["derive"] }
serde_json = "*"

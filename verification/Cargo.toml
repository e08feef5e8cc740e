[package]
name = "hex_defense"
version = "0.1.0"
edition = "2021"
publish = false

[dependencies]
hexx = "*"
rand = "0.8"
serde = { version = "1", features = ["derive"] }
serde_yaml = "0.9"
crossbeam-channel = "0.5"

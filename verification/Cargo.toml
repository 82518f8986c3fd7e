[package]
name = "eve_industry"
version = "0.1.0"
edition = "2021"

[dependencies]
serde = { version = "1", features = ["derive"] }
serde_json = "1"
yaml-rust = "0.4"
num-format = "0.4"

[package]
name = "enceladus"
version = "0.1.0"
edition = "2021"
publish = false

[dependencies]
lru-cache = "*"
serde_json = "*"

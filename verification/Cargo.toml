[package]
name = "ferriki"
version = "0.1.0"
edition = "2021"
publish = false

[dependencies]
serde = { version = "1", features = ["derive"] }
serde_json = "1"
bincode = "1"
ferroni = "1"
napi = "2"
napi-derive = "2"

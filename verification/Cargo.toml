[package]
name = "cube"
version = "0.1.0"
edition = "2021"
publish = false

[dependencies]
axum = "0.7"
bincode = { version = "2", features = ["serde"] }
bitcoin = { version = "0.32", features = ["serde"] }
bitcoincore-rpc = "0.19"
chrono = "0.4"
colored = "2"
hex = "0.4"
rand = "0.8"
secp = "*"
serde = { version = "1", features = ["derive"] }
serde_json = "1"
tokio = { version = "1", features = ["full"] }

[package]
name = "papyrus_sync"
version = "0.1.0"
edition = "2021"
publish = false

[dependencies]
base64 = "*"
chrono = "*"
flate2 = "*"
serde_json = "*"
starknet_api = "*"

[dev-dependencies]
rand = "*"

[package]
name = "cashurs"
version = "0.1.0"
edition = "2021"
publish = false

[dependencies]
base64 = "0.21"
bitcoin_hashes = "0.12"
lightning-invoice = "0.23"
rand = "0.8"
reqwest = { version = "0.11", default-features = false, features = ["blocking", "json"] }
secp256k1 = { version = "0.27", features = ["rand-std"] }
serde = { version = "1", features = ["derive"] }
serde_json = "1"

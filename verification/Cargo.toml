[package]
name = "chain_crypto"
version = "0.1.0"
edition = "2021"
publish = false

[dependencies]
secp256k1 = "*"
sha2 = "*"
hex = "*"
rand = "0.8"
serde = { version = "*", features = ["derive"] }
serde_json = "*"

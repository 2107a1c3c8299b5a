[package]
name = "merkle_anchor"
version = "0.1.0"
edition = "2021"
publish = false

[dependencies]
base64 = "*"
hex = "*"
secp256k1 = "0.27"
serde = { version = "*", features = ["derive"] }
serde_yaml = "*"
sha3 = "*"
web3 = { version = "*", default-features = false, features = ["http", "signing"] }

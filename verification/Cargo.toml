[package]
name = "hyperchain"
version = "0.1.0"
edition = "2021"
publish = false

[dependencies]
blake3 = "*"
base64 = "*"
ed25519-dalek = "*"
rand = "*"
serde_json = "*"

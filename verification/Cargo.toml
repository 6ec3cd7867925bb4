[package]
name = "crev_data"
version = "0.1.0"
edition = "2021"
publish = false

[dependencies]
base64 = "0.13"
blake2 = "0.8"
ed25519-dalek = "0.9"
rand = "0.6"

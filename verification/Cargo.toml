[package]
name = "raucle_receipt"
version = "0.1.0"
edition = "2021"
publish = false

[dependencies]
base64 = "0.22"
ed25519-dalek = { version = "2", features = ["pkcs8", "pem", "rand_core"] }
pkcs8 = { version = "0.10", features = ["pem"] }
rand_core = { version = "0.6", features = ["getrandom"] }
serde_json = "1"
sha2 = "0.10"

[package]
name = "phase1_coordinator"
version = "0.1.0"
edition = "2021"
publish = false

[dependencies]
base64 = "0.13"
sha2 = "0.10"
blake2 = "0.10"
hex = "0.4"
age = "0.6"
secrecy = "0.8"
serde = { version = "1", features = ["derive"] }
serde_json = "1"

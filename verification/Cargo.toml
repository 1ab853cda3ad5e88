[package]
name = "iota_client"
version = "0.1.0"
edition = "2021"
publish = false

[dependencies]
url = "=2.5.8"
primitive-types = "=0.12.2"
serde = { version = "=1.0.229", features = ["derive"] }
serde_json = "=1.0.154"
iota-crypto = { version = "0.23", default-features = false, features = ["blake2b"] }
bech32 = { version = "0.11", default-features = false, features = ["alloc"] }

[package]
name = "voidmerge"
version = "0.1.0"
edition = "2021"
publish = false

[dependencies]
base64 = "=0.22.1"
sha2 = "=0.10.9"
rand = "=0.8.8"
p256 = { version = "=0.13.2", features = ["ecdsa"] }
ed25519-dalek = { version = "=2.2.0", features = ["rand_core", "digest"] }
digest = "=0.10.7"
bytes = "=1.12.1"
serde = { version = "=1.0.229", features = ["derive"] }
serde_json = "=1.0.154"
rmp-serde = "=1.3.1"
minimist = "*"

[package]
name = "braid"
version = "0.1.0"
edition = "2021"
publish = false

[dependencies]
serde_json = "1"
blake3 = { version = "1", features = ["pure"] }
libc = "0.2"

[dev-dependencies]

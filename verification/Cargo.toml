[package]
name = "tokio_krpc"
version = "0.1.0"
edition = "2021"
publish = false

[dependencies]
crypto-hashes = { version = "=0.10.0", features = ["include_weak"] }
rand = "=0.4.6"
futures = "=0.1.31"
tokio-core = "=0.1.18"
tokio-service = "=0.1.0"
log = "=0.4.34"
hexdump = "=0.1.3"

[dev-dependencies]
serde_bencode = "=0.2.4"

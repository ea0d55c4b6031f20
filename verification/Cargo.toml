[package]
name = "cfx_evm"
version = "0.1.0"
edition = "2021"
publish = false

[dependencies]
cfx-types = "=0.1.0"
keccak-hash = "=0.5.1"
rlp = "=0.4.6"
serde = { version = "=1.0.229", features = ["derive"] }

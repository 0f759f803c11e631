[package]
name = "bcsp_core"
version = "0.1.0"
edition = "2021"
publish = false

[dependencies]
curve25519-dalek = { version = "=4.1.3", features = ["legacy_compatibility"] }
tiny-keccak = { version = "=2.0.2", features = ["cshake"] }
zeroize = "=1.9.1"

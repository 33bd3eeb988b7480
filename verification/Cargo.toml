[package]
name = "roast_core"
version = "0.1.0"
edition = "2021"
publish = false

[dependencies]
frost-core = { version = "=3.0.0", features = ["internals"] }
frost-ed25519 = "=3.0.0"
frost-ed448 = "=3.0.0"
frost-p256 = "=3.0.0"
frost-ristretto255 = "=3.0.0"
frost-secp256k1 = "=3.0.0"
rand_core = { version = "=0.6.4", features = ["getrandom"] }

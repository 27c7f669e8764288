[package]
name = "clsag"
version = "0.1.0"
edition = "2021"
publish = false

[dependencies]
curve25519-dalek = { version = "4", features = ["digest", "rand_core"] }
sha2 = "0.10"
rand_core = { version = "0.6", features = ["getrandom"] }

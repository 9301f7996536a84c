[package]
name = "fectp"
version = "0.1.0"
edition = "2021"
publish = false

[dependencies]
rand_core = { version = "0.6", features = ["getrandom"] }
zeroize = "1"
zstd = { version = "0.13", default-features = false }

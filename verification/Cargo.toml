[package]
name = "viking"
version = "0.1.0"
edition = "2021"
publish = false

[dependencies]
curve25519-dalek = "4"
rand = "0.8"
serde = { version = "1", features = ["derive"] }
bincode = "1"
flate2 = "1"

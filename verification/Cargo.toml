[package]
name = "cssism"
version = "0.1.0"
edition = "2021"
publish = false

[dependencies]
bitvec = "1"
kiddo = "4"
parking_lot = "0.12"
rand = "0.8"
serde = { version = "1", features = ["derive"] }

[package]
name = "diegox"
version = "0.1.0"
edition = "2021"
publish = false

[dependencies]
argon2 = "=0.5.3"
base64 = "=0.22.1"
bincode = "=1.3.3"
dirs = "5"
ndarray = { version = "=0.15.6", features = ["serde"] }
rand = "=0.8.8"
rand_chacha = "=0.3.1"
serde = { version = "=1.0.229", features = ["derive"] }
sha2 = "=0.10.9"

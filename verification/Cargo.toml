[package]
name = "ocard"
version = "0.1.0"
edition = "2021"
publish = false

[dependencies]
chrono = "=0.4.45"
xxhash-rust = { version = "=0.8.19", features = ["xxh3"] }
serde = { version = "=1.0.229", features = ["derive"] }
serde_json = "=1.0.154"
walkdir = "=2.5.0"
image = { version = "=0.25.10", default-features = false, features = ["png", "jpeg"] }
kamadak-exif = "=0.5.5"
libc = "=0.2.191"
regex = "1"

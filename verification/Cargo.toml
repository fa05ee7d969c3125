[package]
name = "rose_map"
version = "0.1.0"
edition = "2021"
publish = false

[dependencies]
clap = "=2.34.0"
failure = "=0.1.8"
image = { version = "=0.24.9", default-features = false, features = ["png"] }
serde = { version = "=1.0.229", features = ["derive"] }
serde_json = "=1.0.154"

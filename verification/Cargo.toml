[package]
name = "poggy"
version = "0.1.0"
edition = "2021"
publish = false

[dependencies]
serde = { version = "1", features = ["derive"] }
bincode = "1"
log = "0.4"
env_logger = "0.9"
chrono = "0.4"
rand = "0.8"

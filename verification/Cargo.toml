[package]
name = "srcwroller"
version = "0.1.0"
edition = "2021"
publish = false

[dependencies]
rand = "0.8"
serde = { version = "1", features = ["derive"] }
serde_json = "1"
serde_yaml = "0.9"
chrono = "0.4"
log = "0.4"
image = { version = "0.25", default-features = false, features = ["png"] }
radb = "*"
ocr-rs = "*"
opencv = "*"
rust-embed = "8"

[package]
name = "tera"
version = "0.1.0"
edition = "2021"
publish = false

[dependencies]
chrono = "=0.4.45"
humansize = "=1.1.1"
regex = "=1.13.1"
serde = { version = "=1.0.229", features = ["derive"] }
serde_json = "=1.0.154"
slug = "=0.1.6"
unic-segment = "=0.9.0"

[dev-dependencies]
url = "=1.7.2"

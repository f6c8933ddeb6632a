[package]
name = "media_exporter"
version = "0.1.0"
edition = "2021"
publish = false

[dependencies]
linkify = "*"
url = "*"
url-normalizer = "*"
serde = { version = "*", features = ["derive"] }
serde_json = "*"
reqwest = { version = "*", default-features = false, features = ["blocking"] }

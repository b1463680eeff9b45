[package]
name = "olifm"
version = "0.1.0"
edition = "2021"
publish = false

[dependencies]
base64 = "0.22"
blurhash = "0.2"
chrono = "0.4"
serde_yaml = "0.9"
serde = { version = "1", features = ["derive"] }
serde_json = "1"
pulldown-cmark = { version = "0.13", default-features = false, features = ["html"] }
urlencoding = "2"
image = { version = "0.25", default-features = false, features = ["png", "jpeg"] }
reqwest = { version = "0.12", default-features = false, features = ["blocking"] }

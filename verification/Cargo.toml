[package]
name = "datanymizer_settings"
version = "0.1.0"
edition = "2021"
publish = false

[dependencies]
config = "0.13"
serde = { version = "1", features = ["derive"] }
serde_json = "1"
wildmatch = "2"

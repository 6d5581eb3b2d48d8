[package]
name = "adept"
version = "0.1.0"
edition = "2021"
publish = false

[dependencies]
pulldown-cmark = { version = "=0.12.2", default-features = false }
tiktoken-rs = "=0.12.1"
serde = { version = "=1.0.229", features = ["derive"] }
serde_json = "=1.0.154"
serde_yaml = "0.9"
toml = "=1.1.8"
clap = { version = "=4.6.7", features = ["derive"] }

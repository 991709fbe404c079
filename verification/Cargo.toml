[package]
name = "oxygen_bot"
version = "0.1.0"
edition = "2021"
publish = false

[dependencies]
toml = "0.8"

[dev-dependencies]
regex = "1"

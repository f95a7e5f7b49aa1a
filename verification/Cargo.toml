[package]
name = "dotsync"
version = "0.1.0"
edition = "2021"
publish = false

[dependencies]
clap = "*"
regex = "*"
serde = { version = "*", features = ["derive"] }
sys-info = "*"
toml = "*"

[package]
name = "ortalab"
version = "0.1.0"
edition = "2021"
publish = false

[dependencies]
ortalib = "*"
serde_yaml = "*"
clap = { version = "4", features = ["derive"] }

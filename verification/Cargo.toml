[package]
name = "seresa"
version = "0.1.0"
edition = "2021"
publish = false

[dependencies]
base64 = "0.13"
clap = "2"
freechains = "*"
serde = { version = "1", features = ["derive"] }
serde_json = "1"

[package]
name = "c4model"
version = "0.1.0"
edition = "2021"
publish = false

[dependencies]
clap = { version = "*", features = ["derive"] }
glob = "*"
serde_json = "*"
serde_yaml = "*"

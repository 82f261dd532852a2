[package]
name = "yvh"
version = "0.1.0"
edition = "2021"
publish = false

[dependencies]
serde = { version = "1", features = ["derive"] }
actix-web = "4"
actix-rt = "2"
env_logger = "*"

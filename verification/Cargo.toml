[package]
name = "attachment_service"
version = "0.1.0"
edition = "2021"
publish = false

[dependencies]
mur3 = "=0.1.0"
tokio-util = "=0.7.19"
serde = { version = "*", features = ["derive"] }
serde_json = "*"

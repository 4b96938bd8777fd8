[package]
name = "auto_play"
version = "0.1.0"
edition = "2021"
publish = false

[dependencies]
anyhow = "*"
image = "*"
rand = "*"
serde = { version = "*", features = ["derive"] }
toml = "*"

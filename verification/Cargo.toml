[package]
name = "prpr"
version = "0.1.0"
edition = "2021"
publish = false

[dependencies]
anyhow = "1"
macroquad = "0.3"
miniquad = "0.3"
serde = { version = "1", features = ["derive"] }
serde_yaml = "0.9"

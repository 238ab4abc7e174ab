[package]
name = "video-squeezer"
version = "2.2.0"
edition = "2021"
publish = false

[dependencies]
anyhow = "1"
serde = { version = "1", features = ["derive"] }
serde_json = "1"
walkdir = "2"
rfd = "*"

[package]
name = "asciiview"
version = "0.1.0"
edition = "2021"
publish = false

[dependencies]
clap = { version = "*", features = ["derive"] }
colored = "*"
ffmpeg-next = "*"
image = { version = "*", default-features = false, features = ["png", "jpeg", "gif"] }

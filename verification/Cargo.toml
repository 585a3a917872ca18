[package]
name = "kura"
version = "0.1.0"
edition = "2021"
publish = false

[dependencies]
image = "*"
rustface = "*"
clap = { version = "*", features = ["derive"] }

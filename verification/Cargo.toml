[package]
name = "gif_toolkit"
version = "0.1.0"
edition = "2021"
publish = false

[dependencies]
anyhow = "1"
clap = { version = "4", features = ["derive"] }
color_quant = "1"
env_logger = "*"
gif = "*"
image = { version = "*", default-features = false }
serde = { version = "1", features = ["derive"] }

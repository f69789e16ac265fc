[package]
name = "image_blp"
version = "1.0.0"
edition = "2021"
publish = false

[dependencies]
color_quant = "1"
texpresso = "2"
image = "0.24"
clap = { version = "4", features = ["derive"] }
env_logger = { version = "0.10", default-features = false }
log = "0.4"

[package]
name = "math_images_processor"
version = "0.1.0"
edition = "2021"
publish = false

[dependencies]
image = "*"
tokio = { version = "*", features = ["fs", "rt", "rt-multi-thread", "macros"] }

[package]
name = "watermarker"
version = "0.1.0"
edition = "2021"
publish = false

[dependencies]
colored = "*"
image = "*"
indicatif = "*"
rand = "*"
tokio = { version = "*", features = ["rt-multi-thread", "macros"] }

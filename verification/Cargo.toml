[package]
name = "tunefind"
version = "0.1.0"
edition = "2021"
publish = false

[dependencies]
rustfft = "*"
rust_decimal = { version = "*", features = ["maths"] }
unicode-segmentation = "*"
validator = "*"

[dev-dependencies]
fake = "*"

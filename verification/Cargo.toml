[package]
name = "hog"
version = "0.1.0"
edition = "2021"
publish = false

[dependencies]
image = { version = "0.10", default-features = false }

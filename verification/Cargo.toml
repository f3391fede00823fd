[package]
name = "msts_ace"
version = "0.1.0"
edition = "2021"
publish = false

[dependencies]
compress = "*"
gl = "*"
image = { version = "0.23", default-features = false, features = ["dxt", "png"] }
sdl2 = "*"

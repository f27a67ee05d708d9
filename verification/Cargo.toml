[package]
name = "pathtracer"
version = "0.1.0"
edition = "2021"
publish = false

[dependencies]
bevy_math = "0.12"
image = { version = "0.24", default-features = false, features = ["png"] }
minifb = { version = "0.25", default-features = false, features = ["x11"] }
rand = "0.8"

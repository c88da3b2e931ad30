[package]
name = "motor_melody"
version = "0.1.0"
edition = "2021"
publish = false

[dependencies]
nix = { version = "*", features = ["time"] }
rppal = "*"
rodio = { version = "0.20", default-features = false }

[package]
name = "led_matrix"
version = "0.1.0"
edition = "2021"
publish = false

[dependencies]
rusb = { version = "*", features = ["vendored"] }
image = { version = "*", default-features = false, features = ["png", "jpeg"] }

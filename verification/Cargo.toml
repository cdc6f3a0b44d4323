[package]
name = "axes_limits"
version = "0.1.0"
edition = "2021"
publish = false

[dependencies]
bevy_color = { version = "*", default-features = false, features = ["std"] }
rayon = "*"

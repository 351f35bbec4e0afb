[package]
name = "image_effects"
version = "0.1.0"
edition = "2021"
publish = false

[dependencies]
ndarray = "0.15"
moveslice = "*"
rand = "0.8"
palette = "0.7"
image = { version = "0.24", default-features = false, features = ["png", "jpeg", "gif"] }

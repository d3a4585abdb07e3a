[package]
name = "rust_raytracer"
version = "0.1.0"
edition = "2021"
publish = false

[dependencies]
rand = "=0.8.8"
glam = "=0.24.2"
rayon = "=1.12.0"
eframe = { version = "0.22", default-features = false, features = ["glow", "default_fonts"] }
image = { version = "0.24", default-features = false, features = ["png", "jpeg"] }
rfd = "0.11"

[package]
name = "mandelbrot"
version = "0.1.0"
edition = "2021"
publish = false

[dependencies]
image = { version = "0.24", default-features = false }
num-complex = "0.4"
eframe = { version = "0.22", default-features = false, features = ["glow", "default_fonts"] }

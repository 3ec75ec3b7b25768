[package]
name = "ifs_fractal"
version = "0.1.0"
edition = "2021"
publish = false

[dependencies]
iced = { version = "=0.8.0", default-features = false, features = ["canvas", "glow"] }
libm = "=0.2.16"
rand = "=0.8.8"

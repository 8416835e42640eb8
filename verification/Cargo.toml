[package]
name = "fractals"
version = "0.1.0"
edition = "2021"
publish = false

[dependencies]
image = { version = "=0.24.9", default-features = false, features = ["png"] }
rayon = "=1.12.0"
rustc_apfloat = "0.2"
rustyline = "=12.0.0"
softbuffer = "=0.3.4"
softfloat = "=1.0.0"
winit = "=0.28.7"

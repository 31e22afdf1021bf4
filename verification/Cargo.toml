[package]
name = "lib_ray_tracer"
version = "0.1.0"
edition = "2021"
publish = false

[dependencies]
rand = "=0.8.8"
nalgebra = "=0.32.6"
rayon = "=1.12.0"
real_interval = "=0.1.0"
image = { version = "=0.24.9", default-features = false, features = ["png"] }
progress_bar = "=1.5.2"
speedy2d = "*"

[package]
name = "marble_gravity"
version = "0.1.0"
edition = "2021"
publish = false

[dependencies]
bytemuck = "1"
cgmath = "0.18"
env_logger = "0.10"
image = { version = "0.24", default-features = false, features = ["png"] }
instant = "0.1"
log = "0.4"
pollster = "0.2"
rand = "0.8"
rand_distr = "0.4"
rayon = "1"
wgpu = "0.14"
wgpu_glyph = "0.18"
winit = "0.27"

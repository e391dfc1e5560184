[package]
name = "voxel_engine"
version = "0.1.0"
edition = "2021"
publish = false

[dependencies]
anyhow = "1"
bytemuck = { version = "1", features = ["derive"] }
cgmath = "0.18"
env_logger = "*"
instant = "0.1"
log = "0.4"
noise = "*"
pollster = "*"
rand = "*"
rand_pcg = "*"
rayon = "1"
wgpu = "*"
winit = "0.30"

[package]
name = "wgpurenderer"
version = "0.1.0"
edition = "2021"
publish = false

[dependencies]
bytemuck = { version = "=1.25.2", features = ["derive"] }
env_logger = "=0.11.11"
glam = "=0.34.1"
glfw = "=0.63.0"
nohash-hasher = "=0.2.0"
pollster = "=1.0.1"
smallvec = "=1.16.4"
sorted-vec = "=0.8.11"
wgpu = "=28.0.0"

[package]
name = "boids"
version = "0.1.0"
edition = "2021"
publish = false

[dependencies]
bytemuck = { version = "=1.25.2", features = ["derive", "extern_crate_alloc"] }
env_logger = "=0.11.11"
glam = { version = "=0.34.2", features = ["bytemuck"] }
log = "=0.4.35"
pollster = "=1.0.1"
wgpu = "=30.0.1"
winit = "=0.30.13"

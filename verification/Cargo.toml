[package]
name = "terrain_stream"
version = "0.1.0"
edition = "2021"
publish = false

[dependencies]
glam = "=0.29.3"
bytemuck = { version = "=1.25.2", features = ["derive"] }
wgpu = "=24.0.5"

[package]
name = "guicore"
version = "0.1.0"
edition = "2021"
publish = false

[dependencies]
uuid = { version = "1", features = ["v4"] }
winit = "0.26"
wgpu = "0.12"
pollster = "0.2"
env_logger = "0.9"
bytemuck = { version = "1", features = ["derive"] }

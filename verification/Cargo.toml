[package]
name = "wgpui"
version = "0.1.0"
edition = "2021"
publish = false

[dependencies]
rustc-hash = "2"
glam = { version = "0.30", features = ["bytemuck"] }
wgpu = "26"
winit = "0.30"
lyon = "1"
bytemuck = { version = "1", features = ["derive"] }
cosmic-text = "0.14"
pollster = "0.4"
log = "0.4"

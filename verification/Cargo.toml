[package]
name = "sorot"
version = "0.1.0"
edition = "2021"
publish = false

[dependencies]
slotmap = "1"
bytemuck = { version = "1", features = ["derive"] }
pollster = "*"
image = { version = "*", default-features = false, features = ["png"] }
wgpu = "*"
winit = "*"

[package]
name = "scenecore"
version = "0.1.0"
edition = "2021"
publish = false

[dependencies]
glam = { version = "*", features = ["bytemuck"] }
bytemuck = "*"
bimap = "*"
litemap = "*"
rapier3d = "*"
gltf = { version = "*", default-features = false, features = ["utils", "names"] }
wgpu = "*"
winit = "*"
pollster = "*"
log = "*"
simple_logger = "*"
anyhow = "*"

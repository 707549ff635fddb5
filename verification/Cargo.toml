[package]
name = "renderer"
version = "0.1.0"
edition = "2021"
publish = false

[dependencies]
glam = { version = "0.29", features = ["bytemuck"] }
lyon = "1"
bytemuck = { version = "1", features = ["derive"] }
wgpu = "0.19"
image = { version = "0.24", default-features = false, features = ["png"] }
usvg = "0.45"
serde = { version = "1", features = ["derive"] }
serde_json = "1"
miniserde = "0.1"
rayon = "1"

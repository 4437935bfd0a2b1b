[package]
name = "wavefoam"
version = "0.1.0"
edition = "2021"
publish = false

[dependencies]
itertools = "*"
bytemuck = { version = "*", features = ["derive"] }
skia-safe = "*"
wgpu = "*"

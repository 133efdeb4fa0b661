[package]
name = "voxel_mesh"
version = "0.1.0"
edition = "2021"
publish = false

[dependencies]
wgpu = "0.6"
winit = "0.24"
ultraviolet = "0.8"
bytemuck = "1"

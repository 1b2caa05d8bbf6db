[package]
name = "voxel_mesh"
version = "0.1.0"
edition = "2021"
publish = false

[dependencies]
cgmath = "0.16"
winit = "0.18"

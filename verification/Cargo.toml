[package]
name = "depthfuse"
version = "0.1.0"
edition = "2021"
publish = false

[dependencies]
nalgebra = "=0.35.0"
lstsq = "=0.8.0"
kd-tree = "=0.6.2"
glam = "=0.33.12"
bytemuck = "=1.25.2"

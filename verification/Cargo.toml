[package]
name = "fractal_renderer"
version = "0.1.0"
edition = "2021"
publish = false

[dependencies]
bytemuck = { version = "1", features = ["derive"] }
glam = { version = "0.25", features = ["bytemuck"] }

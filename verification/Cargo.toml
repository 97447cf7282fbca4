[package]
name = "render_loop"
version = "0.1.0"
edition = "2021"
publish = false

[dependencies]
time = "0.1"
cgmath = "*"
winit = "0.28"
vulkano = "0.34"
vulkano-win = "0.34"

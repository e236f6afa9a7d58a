[package]
name = "pathtracer"
version = "0.1.0"
edition = "2021"
publish = false

[dependencies]
rand = "0.8"
rayon = "1"
pixels = "0.13"
winit = "0.28"
winit_input_helper = "0.14"
env_logger = "0.10"

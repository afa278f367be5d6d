[package]
name = "path_tracer"
version = "0.1.0"
edition = "2021"
publish = false

[dependencies]
glam = "0.22"
bytemuck = { version = "1", features = ["derive"] }
crevice = "0.11"
pretty_env_logger = "0.4"
spirv-std = "0.5"

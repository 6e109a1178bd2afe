[package]
name = "luma_swarm_studio"
version = "1.0.0"
edition = "2021"
publish = false

[dependencies]
anyhow = "1"
bytemuck = { version = "1", features = ["derive"] }
eframe = { version = "0.31", default-features = false, features = ["wgpu", "x11", "default_fonts"] }
egui-wgpu = "0.31"
glam = "0.29"
image = { version = "0.25", default-features = false, features = ["png", "jpeg", "gif"] }
serde = { version = "1", features = ["derive"] }
thiserror = "2"

[package]
name = "asf_kai"
version = "0.1.0"
edition = "2021"
publish = false

[dependencies]
meshopt = "*"
image = { version = "0.25", default-features = false, features = ["png"] }
bevy_ecs = { version = "0.16", default-features = false, features = ["std"] }
bevy_derive = "0.16"
bevy_transform = { version = "0.16", default-features = false, features = ["std", "bevy-support"] }
eframe = { version = "0.32", default-features = false, features = ["wgpu", "default_fonts", "x11"] }
egui = { version = "0.32", default-features = false, features = ["default_fonts"] }
wgpu = { version = "25", default-features = false, features = ["wgsl", "vulkan"] }
glam = { version = "0.29", features = ["serde", "bytemuck"] }
redb = "2"
bincode = "1"
serde = { version = "1", features = ["derive"] }
bytemuck = { version = "1", features = ["derive"] }
log = "0.4"
futures-channel = "0.3"

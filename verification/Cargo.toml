[package]
name = "particle_sandbox"
version = "0.1.0"
edition = "2021"
publish = false

[dependencies]
bytemuck = { version = "1", features = ["derive"] }
egui = "0.27"
egui-wgpu = { version = "0.27", default-features = false }
image = { version = "0.24", default-features = false, features = ["png", "ico"] }
pollster = "0.3"
rand = "0.8"
rayon = "1"
serde = { version = "1", features = ["derive"] }
serde_json = "1"
wgpu = { version = "0.19", default-features = false, features = ["wgsl"] }

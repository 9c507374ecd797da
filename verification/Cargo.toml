[package]
name = "voxelcore"
version = "0.1.0"
edition = "2021"
publish = false

[dependencies]
serde = { version = "=1.0.229", features = ["derive"] }
serde_json = "=1.0.151"
noisy_bevy = "=0.14.0"
bevy = { version = "=0.19.1", default-features = false, features = ["std"] }

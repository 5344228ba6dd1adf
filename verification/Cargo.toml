[package]
name = "blitz"
version = "0.1.0"
edition = "2021"
publish = false

[dependencies]
bevy = { version = "=0.10.1", default-features = false, features = ["bevy_asset", "bevy_core_pipeline", "bevy_render", "bevy_sprite", "bevy_winit", "png", "x11"] }
bevy_ecs_ldtk = "0.7"
bevy_renet = "=0.0.7"
bincode = "=1.3.3"
serde = { version = "=1.0.229", features = ["derive"] }
ctrlc = "=3.5.2"

[package]
name = "flock"
version = "0.1.0"
edition = "2021"
publish = false

[dependencies]
bevy = { version = "=0.10.1", default-features = false, features = ["bevy_asset", "bevy_core_pipeline", "bevy_render", "bevy_sprite", "bevy_winit", "png", "x11"] }
bevy_prototype_debug_lines = "=0.10.2"
kd-tree = "=0.5.3"
rand = "=0.8.8"
typenum = "=1.20.1"

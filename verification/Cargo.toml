[package]
name = "summoner"
version = "0.1.0"
edition = "2021"
publish = false

[dependencies]
bevy = { version = "=0.10.1", default-features = false, features = ["bevy_asset", "bevy_core_pipeline", "bevy_pbr", "bevy_render", "bevy_winit", "png", "x11"] }
bevy_mod_picking = { version = "=0.13.0", default-features = false, features = ["backend_raycast", "debug", "highlight"] }
rand = "=0.8.8"

[package]
name = "dithered_scene"
version = "0.1.0"
edition = "2021"
publish = false

[dependencies]
bevy = { version = "0.8", default-features = false, features = ["bevy_core_pipeline", "bevy_pbr", "bevy_render", "bevy_asset", "png"] }
bevy_rapier3d = { version = "0.16", default-features = false, features = ["dim3"] }
bevy_mod_debugdump = "0.5"
radsort = "0.1"

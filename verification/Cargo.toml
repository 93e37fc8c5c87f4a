[package]
name = "gensokio"
version = "0.1.0"
edition = "2021"
publish = false

[dependencies]
bevy = { version = "0.16", default-features = false, features = ["std", "bevy_asset", "bevy_core_pipeline", "bevy_log", "bevy_render", "bevy_sprite", "bevy_window"] }
bevy_ggrs = { version = "0.18", default-features = false }
ggrs = "0.11"

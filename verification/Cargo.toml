[package]
name = "colony"
version = "0.1.0"
edition = "2021"
publish = false

[dependencies]
bevy = { version = "0.17", default-features = false, features = ["std", "bevy_pbr", "bevy_ui", "bevy_gizmos", "bevy_window", "bevy_text"] }

[package]
name = "railway"
version = "0.1.0"
edition = "2021"
publish = false

[dependencies]
bevy = { version = "=0.17.3", default-features = false, features = ["std", "async_executor", "multi_threaded", "bevy_log", "bevy_color", "bevy_window", "bevy_winit", "x11", "bevy_render", "bevy_core_pipeline", "bevy_gizmos", "bevy_sprite", "bevy_sprite_render"] }
rand = "=0.10.3"
thiserror = "=2.0.21"

[package]
name = "game_client"
version = "0.1.0"
edition = "2021"
publish = false

[dependencies]
anyhow = "1"
smol_str = "0.2"
bevy = { version = "0.15", default-features = false, features = [
    "bevy_asset",
    "bevy_color",
    "bevy_core_pipeline",
    "bevy_picking",
    "bevy_scene",
    "bevy_state",
    "bevy_text",
    "bevy_ui",
    "bevy_ui_picking_backend",
    "bevy_window",
] }

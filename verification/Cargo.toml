[package]
name = "terminal_display"
version = "0.1.0"
edition = "2021"
publish = false

[dependencies]
bevy = { version = "=0.15.3", default-features = false, features = ["bevy_asset", "bevy_core_pipeline", "bevy_render"] }
bevy_dither_post_process = "=0.3.1"
bevy_headless_render = "=0.2.0"
color-eyre = "=0.6.5"
crossterm = "=0.28.1"
downcast-rs = "=1.2.1"
ratatui = "=0.29.0"

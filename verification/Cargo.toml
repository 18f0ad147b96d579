[package]
name = "game_screen"
version = "0.1.0"
edition = "2021"
publish = false

[dependencies]
bevy = { version = "0.14", default-features = false, features = ["bevy_asset", "bevy_color", "bevy_state"] }
rand = "0.8"

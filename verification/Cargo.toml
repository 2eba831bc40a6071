[package]
name = "foretold"
version = "0.1.0"
edition = "2021"
publish = false

[dependencies]
rand = "=0.8.8"
bevy = { version = "0.7", default-features = false, features = ["render", "bevy_winit", "png", "x11"] }
bevy_egui = "0.14"
bevy_kira_audio = { version = "0.10", default-features = false, features = ["wav"] }
bevy_mod_picking = "0.6"

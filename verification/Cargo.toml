[package]
name = "tower_defense"
version = "0.1.0"
edition = "2021"
publish = false

[dependencies]
random-number = "0.1"
bevy = { version = "0.12", default-features = false }
egui = "0.24"

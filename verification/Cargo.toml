[package]
name = "game_cap"
version = "0.1.0"
edition = "2021"
publish = false

[dependencies]
rand = "0.8"
egui = { version = "0.26", default-features = false }

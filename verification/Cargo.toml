[package]
name = "scene_editor"
version = "0.1.0"
edition = "2021"
publish = false

[dependencies]
raylib = { version = "=6.0.0", features = ["raygui"] }
glam = "=0.34.1"

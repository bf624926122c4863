[package]
name = "egui_presentation"
version = "0.1.0"
edition = "2021"
publish = false

[dependencies]
eframe = { version = "=0.36.2", default-features = false, features = ["glow", "persistence", "default_fonts", "x11"] }
egui = "=0.36.2"
egui_commonmark = { version = "*", default-features = false }
log = "*"
env_logger = { version = "*", default-features = false }
serde = { version = "*", features = ["derive"] }

[package]
name = "gitgui"
version = "0.1.0"
edition = "2021"
publish = false

[dependencies]
eframe = { version = "=0.32.3", default-features = false, features = ["default_fonts", "glow", "x11"] }
egui = "=0.32.3"
rfd = "*"

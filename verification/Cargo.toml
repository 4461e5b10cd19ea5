[package]
name = "regui"
version = "0.1.0"
edition = "2021"
publish = false

[dependencies]
egui = "=0.36.2"
eframe = { version = "=0.36.2", default-features = false, features = ["default_fonts", "glow", "x11"] }
log = "0.4"

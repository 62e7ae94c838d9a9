[package]
name = "pixel_editor"
version = "0.1.0"
edition = "2021"
publish = false

[dependencies]
egui = "=0.37.0"
eframe = { version = "=0.37.0", default-features = false, features = ["default_fonts", "glow", "x11"] }
egui_extras = { version = "=0.37.0", default-features = false }
image = { version = "=0.25.10", default-features = false, features = ["png"] }
rfd = { version = "=0.17.2", default-features = false, features = ["xdg-portal"] }

[package]
name = "pxls"
version = "0.1.0"
edition = "2021"
publish = false

[dependencies]
anyhow = "1"
dialoguer = { version = "0.11", features = ["fuzzy-select"] }
eframe = { version = "0.29", default-features = false, features = ["default_fonts", "glow", "persistence", "x11"] }
egui = "0.29"
image = { version = "0.25", default-features = false, features = ["jpeg", "png"] }
rfd = "0.15"
serde_json = "1"

[package]
name = "markspace"
version = "0.1.0"
edition = "2021"
publish = false

[dependencies]
dirs = "6"
eframe = { version = "=0.35.0", default-features = false, features = ["default_fonts", "glow", "x11"] }
egui = "=0.35.0"
notify = "8"
serde = { version = "1", features = ["derive"] }
toml = "*"
walkdir = "2"

[dev-dependencies]
tempfile = "3"

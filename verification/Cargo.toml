[package]
name = "mosaic"
version = "0.1.0"
edition = "2021"
publish = false

[dependencies]
image = { version = "=0.25.10", default-features = false, features = ["png"] }
serde = { version = "1", features = ["derive"] }
serde_json = "1"
chrono = "0.4"
ab_glyph = "0.2"
arboard = { version = "3", default-features = false }
eframe = { version = "0.33", default-features = false, features = ["glow", "x11", "default_fonts"] }

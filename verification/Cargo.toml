[package]
name = "spacing_calculator"
version = "0.1.0"
edition = "2021"
publish = false

[dependencies]
eframe = { version = "0.22", default-features = false, features = ["default_fonts", "glow", "persistence"] }
image = { version = "0.24", default-features = false, features = ["png"] }
self_update = { version = "0.37", default-features = false, features = ["rustls"] }
serde = { version = "1", features = ["derive"] }

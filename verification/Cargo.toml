[package]
name = "image_picker"
version = "0.1.0"
edition = "2021"
publish = false

[dependencies]
egui_extras = { version = "0.20", features = ["image"] }
image = { version = "0.24", default-features = false, features = ["png", "jpeg"] }
serde = { version = "1", features = ["derive"] }
serde_json = "1"
csv = "1"
log = "0.4"
env_logger = "0.10"

[package]
name = "llamacpp-launcher"
version = "0.1.0"
edition = "2021"
publish = false

[dependencies]
sys-locale = "0.3"
serde = { version = "1", features = ["derive"] }
serde_json = "1"
ureq = { version = "3", default-features = false }
libc = "0.2"
webbrowser = "1"
rfd = "0.15"
eframe = { version = "0.31", default-features = false, features = ["default_fonts", "glow", "x11", "wayland"] }
egui = "0.31"

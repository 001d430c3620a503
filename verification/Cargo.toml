[package]
name = "egui_multiwin"
version = "0.1.0"
edition = "2021"
publish = false

[dependencies]
glutin = "*"
rand = "*"
futures-lite = "*"
tokio = { version = "*", features = ["macros", "rt", "sync", "time"] }
egui = "*"
async-winit = "*"
arboard = "*"
async-channel = "*"
lazy_static = "*"
thiserror = "*"
glow = "*"
parking_lot = { version = "*", features = ["deadlock_detection"] }

[package]
name = "file_relay"
version = "0.1.0"
edition = "2021"
publish = false

[dependencies]
anyhow = "1"
eframe = { version = "0.20", default-features = false, features = ["glow"] }
egui = { version = "0.20", default-features = false }
log = "0.4"
once_cell = "1"
rmp-serde = "1"
serde = { version = "1", features = ["derive"] }
simple_logger = { version = "4", default-features = false }

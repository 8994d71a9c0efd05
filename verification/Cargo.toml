[package]
name = "graph_editor"
version = "0.1.0"
edition = "2021"
publish = false

[dependencies]
serde = { version = "=1.0.229", features = ["derive"] }
serde_yaml = "=0.9.34"
egui = { version = "=0.27.2", features = ["serde"] }
eframe = { version = "=0.27.2", default-features = false, features = ["persistence"] }

[package]
name = "particle_grid"
version = "0.1.0"
edition = "2021"
publish = false

[dependencies]
eframe = { version = "*", default-features = false }
egui = { version = "*", default-features = false }

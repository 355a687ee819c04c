[package]
name = "t1xr"
version = "0.1.0"
edition = "2021"
publish = false

[dependencies]
rand = "0.9"
rand_chacha = "0.9"
rkyv = "0.8"
crossbeam-channel = "0.5"
eframe = { version = "0.31", default-features = false, features = ["default_fonts", "glow", "x11"] }
egui_plot = "0.31"

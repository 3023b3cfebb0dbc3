[package]
name = "turing_machine"
version = "0.1.0"
edition = "2021"
publish = false

[dependencies]
anyhow = "=1.0.104"
eframe = { version = "=0.29.1", default-features = false, features = ["default_fonts", "glow", "x11"] }
egui_extras = "=0.29.1"
egui_plot = "=0.29.0"
fluent = "=0.16.1"
intl-memoizer = "=0.5.3"
rfd = "=0.15.4"
sys-locale = "=0.3.2"
unic-langid = "=0.9.6"

[package]
name = "hive"
version = "0.1.0"
edition = "2021"
publish = false

[dependencies]
eframe = { version = "0.31", default-features = false, features = ["default_fonts", "glow", "x11"] }
egui = "0.31"
arboard = { version = "3", default-features = false }
rfd = "0.15"
windows = { version = "0.58", features = ["Win32_System_ProcessStatus", "Win32_System_Threading"] }

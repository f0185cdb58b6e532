[package]
name = "dap_sampler"
version = "0.1.0"
edition = "2021"
publish = false

[dependencies]
object = "0.36"
egui = "0.31"
eframe = { version = "0.31", default-features = false, features = ["default_fonts", "glow", "x11"] }
egui_plot = "0.31"
rusb = "0.9"
clap = { version = "4", features = ["derive"] }
anyhow = "1"
thiserror = "2"
env_logger = "0.11"
log = "0.4"
spin_sleep = "1"
rfd = { version = "0.15", default-features = false, features = ["xdg-portal", "tokio"] }

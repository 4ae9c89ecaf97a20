[package]
name = "rotaryclub"
version = "0.1.0"
edition = "2021"
publish = false

[dependencies]
anyhow = "=1.0.104"
chrono = "=0.4.45"
clap = { version = "=4.6.7", features = ["derive"] }
cpal = "=0.18.2"
crossbeam-channel = "=0.5.17"
ctrlc = "=3.5.2"
eframe = { version = "=0.37.0", default-features = false, features = ["default_fonts", "glow", "x11"] }
egui_plot = "=0.38.0"
env_logger = "=0.11.11"
hound = "=3.5.1"
iir_filters = "=0.1.3"
log = "=0.4.35"
pm-remez = "=0.4.1"
rolling-stats = "=0.8.0"
serde = { version = "=1.0.229", features = ["derive"] }
serde_json = "=1.0.154"
thiserror = "=2.0.21"
toml = "=1.1.8"

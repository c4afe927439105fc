[package]
name = "opal"
version = "0.1.0"
edition = "2021"
publish = false

[dependencies]
steam_shortcuts_util = "=1.1.9"
sysinfo = "=0.39.6"
steamlocate = "=2.1.1"
directories = "=6.0.0"
serde = { version = "=1.0.229", features = ["derive"] }
serde_json = "=1.0.154"
log = "=0.4.34"
env_logger = "=0.11.11"
image = { version = "=0.25.10", default-features = false, features = ["png"] }
eframe = { version = "=0.32.3", default-features = false, features = ["default_fonts", "glow", "x11"] }
rfd = { version = "=0.17.2", default-features = false, features = ["xdg-portal"] }

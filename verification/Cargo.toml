[package]
name = "disk_usage"
version = "0.1.0"
edition = "2021"
publish = false

[dependencies]
chrono = { version = "=0.4.45", default-features = false, features = ["clock", "std"] }
clap = { version = "=3.2.25", default-features = false, features = ["std", "derive"] }
colored = "=2.2.0"
dialoguer = { version = "=0.10.4", default-features = false }
dirs = "=4.0.0"
eframe = "=0.18.0"
egui = "=0.18.1"
egui_extras = "=0.18.0"
glob = "=0.3.4"
human_bytes = { version = "=0.3.1", default-features = false }
mime_guess = "=2.0.5"
rfd = "=0.14.1"
sysinfo = { version = "=0.24.7", default-features = false }
trash = "=1.3.0"

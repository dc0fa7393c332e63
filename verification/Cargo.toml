[package]
name = "ferris-scan"
version = "0.1.0"
edition = "2021"
publish = false

[dependencies]
anyhow = "=1.0.104"
crossterm = { version = "=0.29.0", default-features = false, features = ["events", "windows"] }
csv = "=1.4.0"
jwalk = "=0.8.1"
ratatui = { version = "=0.30.2", default-features = false, features = ["crossterm"] }
serde = { version = "=1.0.229", features = ["derive"] }
eframe = { version = "=0.33.3", default-features = false, features = ["default_fonts", "glow", "x11"] }
egui_extras = { version = "=0.33.3", default-features = false }
egui-phosphor = "=0.11.0"
rfd = { version = "=0.15.4", default-features = false, features = ["xdg-portal", "tokio"] }

[dev-dependencies]
tempfile = "=3.27.0"

[package]
name = "lunatig"
version = "0.1.0"
edition = "2021"
publish = false

[dependencies]
git2 = { version = "0.20", default-features = false }
eframe = { version = "*", default-features = false, features = ["default_fonts", "glow", "x11"] }
tracing = "0.1"
tracing-subscriber = { version = "0.3", features = ["env-filter"] }
eyre = "0.6"
anyhow = "1"

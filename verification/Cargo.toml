[package]
name = "booktui"
version = "0.2.0"
edition = "2021"
publish = false

[dependencies]
anyhow = "=1.0.104"
crossterm = "=0.27.0"
ratatui = "=0.27.0"
rodio = { version = "=0.22.2", default-features = false, features = ["playback", "mp3", "mp4", "symphonia-alac"] }
serde = { version = "=1.0.229", features = ["derive"] }
symphonia = { version = "=0.5.5", default-features = false, features = ["aac", "isomp4", "mp3"] }
toml = "=0.8.23"

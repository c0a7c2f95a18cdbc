[package]
name = "audio_browser"
version = "0.1.0"
edition = "2021"
publish = false

[dependencies]
symphonia = { version = "0.5", features = ["mp3", "aac", "isomp4"] }
rodio = "0.20"
walkdir = "2"
serde = { version = "1", features = ["derive"] }
serde_json = "1"

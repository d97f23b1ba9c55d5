[package]
name = "video_audio_processor"
version = "0.1.0"
edition = "2021"
publish = false

[dependencies]
anyhow = "=1.0.104"
ffmpeg-next = "=9.0.0"
image = "=0.24.9"
indicatif = "=0.17.11"
ort = "=2.0.0-rc.15"
serde = { version = "=1.0.229", features = ["derive"] }
toml = "=0.8.23"

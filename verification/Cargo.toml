[package]
name = "common_audio_playback"
version = "0.1.0"
edition = "2021"
publish = false

[dependencies]
glob = "*"
cpal = "*"
eyre = "*"
ctrlc = "*"
serde = { version = "*", features = ["derive"] }
serde_json = "*"

[package]
name = "audio_recorder"
version = "0.1.0"
edition = "2021"
publish = false

[dependencies]
anyhow = "*"
chrono = "*"
clap = { version = "*", features = ["derive"] }
cpal = "*"
symphonia = "*"
whisper-rs = "*"

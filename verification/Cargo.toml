[package]
name = "media_transcriber"
version = "0.1.0"
edition = "2021"
publish = false

[dependencies]
serde = { version = "1", features = ["derive"] }
serde_json = "1"
anyhow = "1"
uuid = { version = "1", features = ["v4"] }
rusqlite = { version = "*", features = ["bundled"] }
dirs-next = "2"
wav = "1"
ureq = "2"
ffmpeg-sidecar = "*"

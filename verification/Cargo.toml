[package]
name = "tactanotes_core"
version = "0.1.0"
edition = "2021"
publish = false

[dependencies]
ring = "*"
rusqlite = { version = "*", features = ["bundled"] }
chrono = "*"
hound = "*"
rubato = "*"
cpal = "*"
whisper-rs = "*"
mimalloc = "*"
lazy_static = "*"
anyhow = "*"

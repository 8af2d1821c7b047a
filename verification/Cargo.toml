[package]
name = "multiplayer_fps"
version = "0.1.0"
edition = "2021"
publish = false

[dependencies]
serde = { version = "1", features = ["derive"] }
bincode = "1"
tokio = { version = "1", features = ["rt-multi-thread", "net", "sync", "time", "macros"] }
crossbeam-channel = "0.5"
winit = "0.30"
softbuffer = "0.4"

[package]
name = "sdr_monitor"
version = "0.1.0"
edition = "2021"
publish = false

[dependencies]
afire = "*"
anyhow = "*"
chrono = "*"
flume = "*"
hound = "*"
num-complex = "*"
parking_lot = "*"
rtlsdr = "*"
rusqlite = { version = "*", features = ["bundled"] }
rustfft = "*"
serde = { version = "*", features = ["derive"] }
serde_json = "*"
softbuffer = "*"
toml = "*"
uuid = { version = "*", features = ["v4"] }
whisper-rs = "*"
winit = "*"

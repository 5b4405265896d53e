[package]
name = "flux"
version = "0.1.0"
edition = "2021"
publish = false

[dependencies]
ash = "0.38"
ashpd = { version = "0.9", default-features = false, features = ["tokio"] }
axum = "0.7"
bitflags = "2"
bytes = "1"
clap = { version = "4", features = ["derive"] }
cros-codecs = { version = "*", features = ["vaapi"] }
crossbeam-channel = "0.5"
ffmpeg-next = "*"
muda = "*"
parking_lot = "0.12"
quick-junit = "*"
quinn = "0.11"
reqwest = { version = "0.12", default-features = false, features = ["json"] }
rustls = "0.23"
serde = { version = "1", features = ["derive"] }
serde_json = "1"
socket2 = "0.6"
tokio = { version = "1", features = ["full"] }
tracing = "0.1"
tracing-subscriber = { version = "0.3", features = ["env-filter"] }
tray-icon = "*"
uuid = { version = "1", features = ["v4", "serde"] }

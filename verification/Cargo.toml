[package]
name = "gate"
version = "0.1.0"
edition = "2021"
publish = false

[dependencies]
rs_merkle = "=1.5.0"
hex = "=0.4.3"
sha256 = "=1.6.0"
ed25519-dalek = { version = "=2.2.0", features = ["serde"] }
serde = { version = "=1.0.229", features = ["derive"] }
serde_json = "=1.0.154"
bytes = { version = "=1.12.1", features = ["serde"] }
anyhow = "=1.0.104"
thiserror = "=2.0.21"
tokio = { version = "=1.54.1", features = ["full"] }
tokio-util = { version = "=0.7.20", features = ["io"] }
tokio-stream = "=0.1.19"
tempfile = "=3.27.0"
mime_guess = "=2.0.5"
dashmap = "=6.2.1"
axum = "=0.8.9"
tower-http = { version = "=0.7.1", features = ["cors"] }
ffmpeg-sidecar = "=2.7.0"

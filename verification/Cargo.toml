[package]
name = "geostationary"
version = "0.1.0"
edition = "2021"
publish = false

[dependencies]
base64 = "=0.22.1"
serde = { version = "=1.0.229", features = ["derive"] }
ron = "=0.12.3"
wincode = { version = "=0.6.3", features = ["derive"] }
bevy = { version = "=0.18.1", default-features = false }
tokio = { version = "=1.54.1", features = ["full"] }
tokio-util = { version = "=0.7.20", features = ["codec"] }
quinn = "=0.11.12"
rustls = "=0.23.46"
rcgen = "=0.14.10"
bytes = "=1.12.1"
futures-util = { version = "=0.3.34", features = ["sink"] }

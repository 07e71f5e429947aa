[package]
name = "srvpro3"
version = "0.1.0"
edition = "2021"
publish = false

[dependencies]
anyhow = "=1.0.104"
base64 = "=0.22.1"
basic-toml = "=0.1.10"
binrw = "=0.13.4"
flate2 = "=1.1.10"
futures = "=0.3.34"
libloading = "=0.8.9"
parking_lot = "=0.12.5"
rand = "=0.8.8"
reqwest = { version = "=0.12.28", default-features = false, features = ["json"] }
serde = { version = "=1.0.229", features = ["derive"] }
serde_json = "=1.0.154"
tokio = { version = "=1.54.1", features = ["full"] }
tokio_kcp = "=0.9.8"
tokio-tungstenite = "=0.30.0"
tokio-util = { version = "=0.7.20", features = ["codec"] }
unicode-normalization = "=0.1.26"
ygopro = "*"
ygopro-data = "*"
ygopro-derive = "*"
ygopro-handler = "*"
ygopro-core-wrapper = "*"

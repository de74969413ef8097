[package]
name = "hls_vod"
version = "0.1.0"
edition = "2021"
publish = false

[dependencies]
urlencoding = "=2.1.3"
serde = { version = "=1.0.229", features = ["derive"] }
serde_json = "=1.0.154"
serde_urlencoded = "=0.7.1"
toml = "=1.1.8"
axum = { version = "=0.8.9", features = ["ws"] }
axum-server = { version = "=0.8.0", features = ["tls-rustls"] }
tokio = { version = "=1.54.1", features = ["full"] }
tower-http = { version = "=0.7.1", features = ["cors", "trace"] }
tracing = "=0.1.44"
tracing-subscriber = { version = "=0.3.23", features = ["env-filter"] }
parking_lot = "=0.13.0"
dashmap = "=6.2.1"
bytes = "=1.12.1"
clap = { version = "=4.6.7", features = ["derive"] }
reqwest = { version = "=0.13.5", default-features = false, features = ["stream"] }
uuid = { version = "=1.29.0", features = ["v4"] }
regex = "=1.13.1"
http = "=1.5.0"
hyper = "=1.12.0"
hyper-util = { version = "=0.1.21", features = ["client-legacy", "http1", "tokio"] }
http-body-util = "=0.1.5"
futures-util = { version = "=0.3.34", features = ["sink"] }
tokio-tungstenite = "=0.30.0"
crossbeam-channel = "=0.5.17"
num_cpus = "=1.17.0"
thiserror = "=2.0.21"
ffmpeg-next = "=9.0.0"

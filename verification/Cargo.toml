[package]
name = "room_relay"
version = "0.1.0"
edition = "2021"
publish = false

[dependencies]
axum = { version = "0.7", default-features = false, features = ["http1", "json", "tokio"] }
base64 = "0.21"
clap = { version = "4", default-features = false, features = ["derive", "std", "help", "usage", "error-context"] }
futures = "0.3"
futures-util = "0.3"
libp2p = { version = "0.53", features = ["tcp", "dns", "noise", "yamux", "gossipsub", "mdns", "tokio", "macros"] }
metrics = "0.21"
metrics-exporter-prometheus = { version = "0.12", default-features = false, features = ["http-listener"] }
serde = { version = "1", features = ["derive"] }
serde_json = "1"
sysinfo = { version = "0.29", default-features = false }
tokio = { version = "1", features = ["full"] }
tokio-stream = "0.1"
tokio-tungstenite = "0.21"
tracing-subscriber = { version = "0.3", default-features = false, features = ["env-filter", "fmt", "std"] }
uuid = { version = "1", features = ["v4"] }
warp = { version = "0.3", default-features = false, features = ["websocket"] }

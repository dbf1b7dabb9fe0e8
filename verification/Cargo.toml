[package]
name = "feeder_service"
version = "0.1.0"
edition = "2021"
publish = false

[dependencies]
serde = { version = "=1.0.229", features = ["derive"] }
serde_json = "=1.0.151"
tokio = { version = "=1.53.2", features = ["full"] }
tokio-stream = "=0.1.19"
tokio-tungstenite = "=0.30.0"
warp = { version = "=0.4.3", features = ["server", "websocket"] }
futures-util = "=0.3.34"
dotenv = "=0.15.0"
local-ip-address = "=0.6.13"
chrono = "=0.4.45"
reqwest = { version = "=0.13.5", features = ["json"] }
tonic = "=0.14.6"
rusqlite = { version = "=0.40.2", features = ["bundled"] }

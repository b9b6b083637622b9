[package]
name = "rume_core"
version = "0.1.0"
edition = "2021"
publish = false

[dependencies]
chrono = { version = "=0.4.45", default-features = false, features = ["std"] }
serde = { version = "=1.0.229", features = ["derive"] }
serde_json = "=1.0.151"
reqwest = { version = "=0.13.5", default-features = false, features = ["cookies", "form", "json"] }
tokio = { version = "=1.53.2", features = ["net", "rt", "rt-multi-thread"] }
tokio-tungstenite = "=0.30.0"
futures-util = "=0.3.34"
async-std = "=1.13.2"
http = "=1.5.0"
anyhow = "=1.0.104"

[package]
name = "monitaur"
version = "0.1.0"
edition = "2021"
publish = false

[dependencies]
regex = "=1.13.1"
uuid = { version = "=1.29.1", features = ["v4"] }
bollard = "=0.18.1"
tokio = { version = "=1.54.1", features = ["full"] }
sysinfo = "=0.33.1"
rusqlite = { version = "=0.32.1", features = ["bundled"] }
axum = "=0.8.9"
tower-http = { version = "=0.6.11", features = ["cors"] }
serde = { version = "=1.0.229", features = ["derive"] }
serde_json = "=1.0.154"
argon2 = { version = "=0.5.3", features = ["std"] }
futures-util = "=0.3.34"
tracing = "=0.1.44"
tracing-subscriber = "=0.3.23"

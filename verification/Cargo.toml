[package]
name = "kiro_rs"
version = "0.7.3"
edition = "2021"
publish = false

[dependencies]
serde_json = "=1.0.154"
uuid = { version = "=1.29.0", features = ["v4"] }
httpdate = "=1.0.3"
http = "=1.5.0"
chrono = { version = "=0.4.45", default-features = false, features = ["std"] }
anyhow = "=1.0.104"
axum = { version = "=0.8.9", default-features = false, features = ["json"] }
bytes = "=1.12.1"
futures = "=0.3.34"
parking_lot = "=0.12.5"
reqwest = { version = "=0.12.28", default-features = false, features = ["stream"] }
serde = { version = "=1.0.229", features = ["derive"] }
tokio = { version = "=1.54.1", features = ["macros", "rt", "sync", "time"] }
tracing = "=0.1.44"

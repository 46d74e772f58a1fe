[package]
name = "tanuki_quiz"
version = "0.1.0"
edition = "2021"
publish = false

[dependencies]
image = "0.24"
base64 = "0.22"
uuid = { version = "1", features = ["v4"] }
rand = "0.8"
axum = { version = "0.7", features = ["multipart"] }
tokio = { version = "1", features = ["full"] }
tower-http = { version = "0.5", features = ["fs"] }
serde = { version = "1", features = ["derive"] }
serde_json = "1"
parking_lot = "0.12"
chrono = "0.4"
bytes = "1"

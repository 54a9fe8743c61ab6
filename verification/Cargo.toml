[package]
name = "pogoot"
version = "0.1.0"
edition = "2021"
publish = false

[dependencies]
nanoid = "0.4"
argon2 = "0.5"
uuid = { version = "1", features = ["v4", "v7", "serde"] }
serde = { version = "1", features = ["derive"] }
serde_json = "1"
rand = "0.8"
zstd = "0.13"
chrono = "0.4"
tokio = { version = "1", features = ["full"] }
axum = { version = "0.7", features = ["ws"] }
futures-util = "0.3"
tower-http = { version = "0.5", features = ["cors"] }
tracing = "0.1"
tracing-subscriber = "0.3"
text_io = "0.1"

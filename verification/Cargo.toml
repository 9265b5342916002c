[package]
name = "ninja_probe"
version = "0.1.0"
edition = "2021"
publish = false

[dependencies]
axum = "*"
chrono = "0.4"
reqwest = { version = "*", default-features = false, features = ["json"] }
serde = { version = "1", features = ["derive"] }
serde_derive = "1"
serde_json = "1"
serenity = { version = "*", default-features = false, features = ["http", "model", "rustls_backend"] }
tokio = { version = "1", features = ["full"] }
tokio-cron-scheduler = "*"
toml = "*"
tracing = "0.1"
tracing-subscriber = "0.3"
uuid = "1"

[package]
name = "concur-server"
version = "0.1.0"
edition = "2021"
publish = false

[dependencies]
anyhow = "1"
axum = { version = "0.7", features = ["macros"] }
chrono = "0.4"
dotenvy = "0.15"
jsonwebtoken = "9"
libsql = { version = "*", default-features = false, features = ["remote"] }
log = "0.4"
oauth2 = "4"
serde = { version = "1", features = ["derive"] }
simplelog = "0.12"
tokio = { version = "1", features = ["macros", "rt-multi-thread", "sync", "time", "net"] }
tracing = "0.1"
uuid = { version = "1", features = ["v4"] }

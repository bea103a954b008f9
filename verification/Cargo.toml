[package]
name = "soulbeet"
version = "0.1.0"
edition = "2021"
publish = false

[dependencies]
sha2 = "0.10"
aes-gcm = "0.10"
base64 = "0.22"
url = "2"
rand = "0.9"
tokio = { version = "1", features = ["fs", "time", "sync", "macros", "rt"] }
reqwest = { version = "0.12", default-features = false, features = ["json", "rustls-tls"] }
serde = { version = "1", features = ["derive"] }
serde_json = "1"
chrono = "0.4"
uuid = { version = "1", features = ["v4"] }
sqlx = { version = "0.8", default-features = false, features = ["sqlite", "runtime-tokio", "derive"] }
tracing = "0.1"

[package]
name = "secure_storage_backend"
version = "0.1.0"
edition = "2021"
publish = false

[dependencies]
aes-gcm = "0.10"
argon2 = "0.5"
axum = "0.7"
chrono = { version = "0.4", features = ["serde"] }
dotenv = "0.15"
rand = "0.8"
serde = { version = "1", features = ["derive"] }
sqlx = { version = "0.8", default-features = false, features = ["runtime-tokio", "postgres", "chrono", "uuid", "derive"] }
tokio = { version = "1", features = ["full"] }
tokio-cron-scheduler = "0.10"
tower-http = { version = "0.5", features = ["cors"] }
tracing-subscriber = "0.3"
uuid = { version = "1", features = ["v4", "serde"] }

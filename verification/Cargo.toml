[package]
name = "timetrial"
version = "0.1.0"
edition = "2021"
publish = false

[dependencies]
argon2 = "0.5"
hmac = "0.12"
sha2 = "0.10"
rand_core = { version = "0.6", features = ["getrandom"] }
axum = "0.8"
tokio = { version = "1", features = ["full"] }
sqlx = { version = "0.8", default-features = false, features = ["runtime-tokio", "sqlite", "macros"] }
dotenvy = "0.15"
serde = { version = "1", features = ["derive"] }

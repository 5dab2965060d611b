[package]
name = "ledger"
version = "0.1.0"
edition = "2021"
publish = false

[dependencies]
chrono = "0.4"
rust_decimal = "1"
rust-argon2 = "1"
jsonwebtoken = "9"
rand = "0.8"
serde = { version = "1", features = ["derive"] }
serde_json = "1"
toml = "0.8"
actix-web = "4"
actix-web-httpauth = "0.8"
actix-cors = "0.7"
thiserror = "1"
anyhow = "1"
tracing = "0.1"
tracing-subscriber = "0.3"
base64 = "0.21"

[dev-dependencies]
uuid = { version = "1", features = ["v4"] }

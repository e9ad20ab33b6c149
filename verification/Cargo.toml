[package]
name = "powledger"
version = "0.1.0"
edition = "2021"
publish = false

[dependencies]
sha2 = "0.10"
hex = "0.4"
secp256k1 = "0.28"
uuid = { version = "1", features = ["v4"] }
chrono = "0.4"
actix-web = "4"
serde = { version = "1", features = ["derive"] }
serde_json = "1"
rand = "0.8"
log = "0.4"
env_logger = "*"
dotenvy = "*"

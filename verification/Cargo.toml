[package]
name = "auth_sessions"
version = "0.1.0"
edition = "2021"
publish = false

[dependencies]
actix-web = "4"
bcrypt = "=0.19.3"
deadpool-postgres = "*"
env_logger = "*"
jsonwebtoken = "=9.3.1"
log = "*"
rand = "=0.8.8"
serde = { version = "1", features = ["derive"] }
serde_json = "1"
tokio-postgres = { version = "0.7", features = ["with-uuid-1"] }
tokio-postgres-migration = "*"
urlencoding = "=2.1.3"
uuid = { version = "=1.27.0", features = ["v7", "serde"] }

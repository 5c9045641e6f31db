[package]
name = "chat_presence"
version = "0.1.0"
edition = "2021"
publish = false

[dependencies]
tokio = { version = "0.2", features = ["sync", "rt-core", "stream", "macros"] }
warp = "0.2"
futures = "0.3"
deadpool-postgres = "0.5"
reqwest = { version = "0.10", default-features = false, features = ["json", "rustls-tls"] }
jsonwebtoken = "7"
headers = "0.3"
serde = { version = "1", features = ["derive"] }
log = "0.4"

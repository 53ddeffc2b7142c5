[package]
name = "chat_server"
version = "0.1.0"
edition = "2021"
publish = false

[dependencies]
uuid = { version = "1", features = ["v4"] }
chrono = "0.4"
tokio = { version = "1", features = ["macros", "rt-multi-thread", "sync", "time"] }
redis = { version = "*", features = ["tokio-comp"] }
serde = { version = "1", features = ["derive"] }
serde_json = "1"
futures-util = "0.3"
actix-web = "4"
actix-ws = "*"
log = "0.4"

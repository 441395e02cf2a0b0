[package]
name = "asset_price_notifier"
version = "0.1.0"
edition = "2021"
publish = false

[dependencies]
actix = "0.13"
actix-web = "4"
actix-web-actors = "4"
chrono = "0.4"
dashmap = "5"
dotenv = "0.15"
reqwest = { version = "0.12", default-features = false, features = ["rustls-tls"] }
serde = { version = "1", features = ["derive"] }
serde_json = "1"
thiserror = "1"
tokio = { version = "1", features = ["rt-multi-thread", "macros", "sync", "time"] }
tracing = "0.1"
tracing-subscriber = { version = "0.3", features = ["env-filter"] }
uuid = { version = "1", features = ["v4"] }

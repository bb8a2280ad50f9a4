[package]
name = "trade_store"
version = "0.1.0"
edition = "2021"
publish = false

[dependencies]
anyhow = "1"
azalea = "*"
chrono = { version = "0.4", default-features = false, features = ["now", "std", "serde"] }
dialoguer = { version = "0.12", default-features = false }
reqwest = { version = "0.12", default-features = false, features = ["blocking", "json"] }
serde = { version = "1", features = ["derive"] }
serde_json = "1"
tokio = { version = "1", features = ["rt-multi-thread", "macros", "sync", "time"] }
tracing = "0.1"
tracing-appender = "0.2"
tracing-subscriber = { version = "0.3", features = ["env-filter"] }

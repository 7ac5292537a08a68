[package]
name = "wealthcast"
version = "0.1.0"
edition = "2021"
publish = false

[dependencies]
dashmap = "*"
tokio = { version = "*", features = ["sync", "rt-multi-thread", "macros", "time", "net"] }
rand = "*"
chrono = "*"
serde = { version = "*", features = ["derive"] }
serde_json = "*"
axum = { version = "*", features = ["ws"] }
reqwest = { version = "*", default-features = false, features = ["json"] }
uuid = { version = "*", features = ["v4"] }

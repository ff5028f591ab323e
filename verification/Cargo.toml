[package]
name = "playarr"
version = "0.1.0"
edition = "2021"
publish = false

[dependencies]
dashmap = "*"
uuid = { version = "1", features = ["v4", "serde"] }
actix-web = { version = "4", default-features = false, features = ["cookies", "macros"] }
actix-ws = "*"
futures-util = "0.3"
serde = { version = "1", features = ["derive"] }
serde_json = "1"
tokio = { version = "1", features = ["rt-multi-thread", "macros", "time", "sync"] }
chrono = "0.4"
toml = "*"
dirs = "*"
reqwest = { version = "0.12", default-features = false }

[package]
name = "ai_memory_purge"
version = "0.1.0"
edition = "2021"
publish = false

[dependencies]
anyhow = "=1.0.104"
cognomen = { version = "=0.5.1", features = ["serde"] }
flate2 = "=1.1.10"
git2 = { version = "=0.21.0", default-features = false }
jiff = "=0.2.39"
rusqlite = { version = "=0.41.1", features = ["bundled"] }
serde = { version = "=1.0.229", features = ["derive"] }
serde_json = "=1.0.154"
tar = "=0.4.46"
tracing = "=0.1.44"
uuid = { version = "=1.29.0", features = ["v4"] }

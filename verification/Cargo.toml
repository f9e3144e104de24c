[package]
name = "tracky"
version = "0.2.0"
edition = "2021"
publish = false

[dependencies]
sha2 = "=0.11.1"
regex = "=1.13.1"
chrono = "=0.4.45"
serde = { version = "=1.0.229", features = ["derive"] }
serde_json = "=1.0.154"
anyhow = "=1.0.104"
clap = { version = "=4.6.7", features = ["derive"] }
rusqlite = { version = "=0.41.1", features = ["bundled", "backup"] }

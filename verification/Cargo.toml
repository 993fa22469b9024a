[package]
name = "localtools"
version = "0.1.0"
edition = "2021"
publish = false

[dependencies]
serde = { version = "=1.0.229", features = ["derive"] }
serde_json = "=1.0.154"
serde_yaml = "=0.9.34"
toml = "=1.1.8"
chrono = "=0.4.45"
clap = { version = "4", features = ["derive"] }
rusqlite = "*"

[package]
name = "unityassetdb"
version = "0.1.0"
edition = "2021"
publish = false

[dependencies]
anyhow = "1"
chrono = "0.4"
clap = { version = "4", features = ["derive"] }
indicatif = "0.17"
rusqlite = { version = "*", features = ["bundled"] }
tracing = "0.1"

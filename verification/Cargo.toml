[package]
name = "blazewvr"
version = "0.1.0"
edition = "2021"
publish = false

[dependencies]
colored = "3"
ratatui = { version = "0.29", default-features = false }
serde = { version = "1", features = ["derive"] }
serde_json = "1"
toml = "0.8"
anyhow = "1"
clap = { version = "4", features = ["derive"] }

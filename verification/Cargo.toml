[package]
name = "sat_cli"
version = "0.2.0"
edition = "2021"
publish = false

[dependencies]
ratatui = "0.29"
serde_json = "1"
tokio = { version = "1", features = ["full"] }

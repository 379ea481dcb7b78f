[package]
name = "tally"
version = "0.1.0"
edition = "2021"
publish = false

[dependencies]
anyhow = "*"
ratatui = "*"

[dev-dependencies]
serde_json = "*"

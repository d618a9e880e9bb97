[package]
name = "newmac-core"
version = "0.1.0"
edition = "2021"
publish = false

[dependencies]
anyhow = "1"
nucleo-matcher = "0.3"
ratatui = "0.29"
serde = { version = "1", features = ["derive"] }
serde_json = "1"
toml = "0.8"

[package]
name = "hoard"
version = "0.1.0"
edition = "2021"
publish = false

[dependencies]
anyhow = "1"
crossbeam-channel = "0.5"
ratatui = { version = "0.26", default-features = false, features = ["termion"] }
serde = { version = "1", features = ["derive"] }
serde_json = "1"
termion = "3"

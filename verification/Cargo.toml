[package]
name = "rsll"
version = "0.1.0"
edition = "2021"
publish = false

[dependencies]
regex = "1"
midly = "0.5"
midir = { version = "0.10", features = ["jack"] }
serde = { version = "1", features = ["derive"] }
toml = "0.8"
crossterm = "0.28"
ratatui = "0.29"

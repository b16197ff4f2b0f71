[package]
name = "hat"
version = "0.1.0"
edition = "2021"
publish = false

[dependencies]
crossterm = "0.29"
getrandom = "0.3"
reqwest = { version = "0.12", features = ["blocking", "json"] }
serde = { version = "1", features = ["derive"] }
serde_json = "1"
toml = "0.8"

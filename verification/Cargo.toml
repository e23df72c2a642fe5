[package]
name = "mget"
version = "0.1.0"
edition = "2021"
publish = false

[dependencies]
crossterm = "*"
reqwest = "*"
serde = { version = "*", features = ["derive"] }
serde_json = "*"
tokio = { version = "*", features = ["full"] }

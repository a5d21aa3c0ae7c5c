[package]
name = "annotator"
version = "0.1.0"
edition = "2021"
publish = false

[dependencies]
anyhow = "*"
chrono = "*"
clap = { version = "*", features = ["derive"] }
crossterm = "*"
git2 = "*"
glob = "*"
ratatui = "*"
serde = { version = "*", features = ["derive"] }
serde_json = "*"
syntect = "*"
uuid = { version = "*", features = ["v4"] }

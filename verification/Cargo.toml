[package]
name = "seer"
version = "0.1.0"
edition = "2021"
publish = false

[dependencies]
camino = { version = "1", features = ["serde1"] }
chrono = { version = "0.4", features = ["serde"] }
clap = { version = "4", features = ["derive"] }
derive_more = { version = "*", features = ["full"] }
iddqd = { version = "*", features = ["serde"] }
ratatui = "0.29"
regex = "1"
schemars = "*"
serde = { version = "1", features = ["derive"] }
serde_json = "1"
thiserror = "2"

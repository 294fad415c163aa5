[package]
name = "ninety_nine"
version = "0.1.0"
edition = "2021"
publish = false

[dependencies]
regex = "1"
serde = { version = "1", features = ["derive"] }
serde_json = "1"
toml = "0.8"
chrono = { version = "0.4", features = ["serde"] }
uuid = { version = "1", features = ["v4", "serde"] }
rusqlite = { version = "0.32", features = ["bundled"] }
clap = { version = "4", features = ["derive"] }
crossterm = "0.28"
ratatui = "0.29"
duct = "0.13"
which = "7"
dirs = "6"
indicatif = "0.17"
tokio = { version = "1", features = ["full"] }
tracing = "0.1"
tracing-subscriber = { version = "0.3", features = ["env-filter"] }
statrs = "0.18"
thiserror = "2"
cargo_metadata = "0.19"
colored = "2"
signal-hook = "0.3"
tokio-postgres = "0.7"
deadpool-postgres = "0.14"

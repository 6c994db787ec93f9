[package]
name = "loadsmith_lab"
version = "0.1.0"
edition = "2021"
publish = false

[dependencies]
anyhow = "1"
bollard = "0.18"
bytes = "1"
clap = { version = "4", features = ["derive"] }
colored = "2"
dirs = "5"
futures-util = "0.3"
serde = { version = "1", features = ["derive"] }
serde_yaml = "0.9"
tar = "0.4"
tokio = { version = "1", features = ["full"] }
tokio-postgres = "0.7"
toml = "0.8"
tracing = "0.1"
tracing-subscriber = { version = "0.3", features = ["env-filter"] }
uuid = { version = "1", features = ["v4"] }

[package]
name = "reheader_core"
version = "0.1.0"
edition = "2021"
publish = false

[dependencies]
regex = "1"
base64 = "0.22"
sha2 = "0.10"
serde = { version = "1", features = ["derive"] }
serde_json = "1"
anyhow = "1"
axum = "0.8"
clap = { version = "4", features = ["derive"] }
dirs = "*"
http = "1"
hudsucker = "*"
hyper-http-proxy = "*"
tokio = { version = "1", features = ["full"] }
tracing = "0.1"
tracing-subscriber = { version = "0.3", features = ["env-filter"] }
winreg = "*"

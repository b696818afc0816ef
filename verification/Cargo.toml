[package]
name = "pwatch"
version = "0.1.0"
edition = "2021"
publish = false

[dependencies]
anyhow = "1"
axum = "0.7"
log = "0.4"
nix = "*"
perf-event-open-sys = "*"
procfs = "*"
serde = { version = "1", features = ["derive"] }
serde_json = "1"
tokio = { version = "1", features = ["rt", "net", "sync"] }
tokio-stream = { version = "0.1", features = ["sync"] }

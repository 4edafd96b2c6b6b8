[package]
name = "krill"
version = "0.1.0"
edition = "2021"
publish = false

[dependencies]
anyhow = "*"
chrono = "*"
clap = { version = "*", features = ["derive"] }
dirs = "*"
nix = { version = "=0.31.3", features = ["fs", "process", "signal"] }
os_pipe = "*"
serde = { version = "*", features = ["derive"] }
serde_json = "*"
serde_yaml = "*"
shell-words = "*"
thiserror = "*"
tokio = { version = "*", features = ["full"] }
tracing = "*"
tracing-subscriber = "*"
uuid = { version = "*", features = ["v4"] }

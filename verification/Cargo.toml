[package]
name = "autoterm"
version = "0.1.0"
edition = "2021"
publish = false

[dependencies]
toml = "*"
unicode-width = "*"
libloading = "*"
portable-pty = "*"
alacritty_terminal = "*"
anyhow = "*"
clap = { version = "*", features = ["derive"] }
serde = { version = "*", features = ["derive"] }
serde_json = "*"
log = "*"
env_logger = "*"
once_cell = "*"
axum = "*"
tokio = { version = "*", features = ["full"] }
tower-http = { version = "*", features = ["cors"] }
tokio-util = { version = "*", features = ["io"] }

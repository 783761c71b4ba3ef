[package]
name = "flashy"
version = "0.1.0"
edition = "2021"
publish = false

[dependencies]
anyhow = "*"
chrono = "*"
clap = "*"
crossterm = "*"
dotenvy = "*"
env_logger = "*"
log = "*"
rand = "*"
ratatui = "*"
serde = { version = "*", features = ["derive"] }
sqlx = { version = "*", default-features = false, features = ["runtime-tokio", "sqlite", "macros"] }
tokio = { version = "*", features = ["rt-multi-thread", "macros", "fs", "io-util"] }
walkdir = "*"

[dev-dependencies]
strsim = "*"

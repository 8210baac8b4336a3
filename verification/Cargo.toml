[package]
name = "quack"
version = "0.1.0"
edition = "2021"
publish = false

[dependencies]
anyhow = "*"
arboard = "*"
clap = { version = "*", features = ["derive"] }
crossterm = "*"
dirs = "*"
dotenvy = "*"
futures-util = "*"
ratatui = "*"
reqwest = { version = "*", default-features = false, features = ["json", "stream"] }
serde_json = "*"
tokio = { version = "*", features = ["rt-multi-thread", "macros", "sync", "time"] }
tokio-stream = "*"

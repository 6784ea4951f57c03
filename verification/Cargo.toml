[package]
name = "boxtop"
version = "0.1.0"
edition = "2021"
publish = false

[dependencies]
anyhow = "*"
bollard = "*"
chrono = "*"
crossterm = "*"
dirs = "*"
futures-util = "*"
glob = "*"
ratatui = "*"
serde = { version = "*", features = ["derive"] }
serde_json = "*"
serde_yaml = "*"
sysinfo = "*"
tokio = { version = "*", features = ["macros", "rt-multi-thread"] }

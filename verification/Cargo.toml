[package]
name = "ntop"
version = "0.1.3"
edition = "2021"
publish = false

[dependencies]
nix = { version = "0.29", features = ["signal"] }
sysinfo = "0.33"
ratatui = "0.29"
crossterm = "0.28"
clap = { version = "4", features = ["derive"] }
tokio = { version = "1", features = ["rt-multi-thread", "macros", "sync"] }
serde = { version = "1", features = ["derive"] }
serde_json = "1"
toml = "0.8"
csv = "1"
dirs = "5"
glob = "0.3"
anyhow = "1"

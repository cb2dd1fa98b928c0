[package]
name = "gr"
version = "0.1.0"
edition = "2021"
publish = false

[dependencies]
anyhow = "=1.0.104"
async-trait = "=0.1.92"
colored = "=2.2.0"
crossterm = "=0.29.0"
dirs = "=7.0.0"
exec = "=0.3.1"
itertools = "=0.15.0"
octocrab = "=0.47.1"
ratatui = "=0.30.2"
regex = "=1.13.1"
serde = { version = "=1.0.229", features = ["derive"] }
tokio = { version = "=1.54.1", features = ["macros", "rt-multi-thread", "time"] }
toml = "=1.1.8"
url = "=2.5.8"

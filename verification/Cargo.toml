[package]
name = "garage"
version = "0.1.0"
edition = "2021"
publish = false

[dependencies]
anyhow = "1"
arboard = { version = "3", default-features = false }
clap = { version = "4", features = ["derive"] }
crossterm = "*"
libc = "0.2"
memmap2 = "0.9"
ratatui = "*"
regex = "1"
similar = "2"
thiserror = "2"
toml = "*"
tracing = "0.1"
tracing-subscriber = { version = "0.3", features = ["env-filter"] }

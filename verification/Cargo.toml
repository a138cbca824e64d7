[package]
name = "syswatch"
version = "0.1.0"
edition = "2021"
publish = false

[dependencies]
anyhow = "1"
chrono = "0.4"
clap = { version = "4", features = ["derive"] }
crossterm = "0.28"
ctrlc = "3"
dirs = "5"
libc = "0.2"
macpow = "*"
netwatch-sdk = "*"
nvml-wrapper = "0.10"
postcard = { version = "1", features = ["use-std"] }
ratatui = "0.29"
serde = { version = "1", features = ["derive"] }
serde_json = "1"
sysinfo = "0.33"
zstd = "0.13"

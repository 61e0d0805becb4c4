[package]
name = "vox"
version = "0.8.0"
edition = "2021"
publish = false

[dependencies]
anyhow = "1"
base64 = "=0.22.1"
clap = { version = "4", features = ["derive", "env"] }
crossterm = "0.28"
dirs = "5"
fs2 = "0.4"
hound = "=3.5.1"
ratatui = "0.29"
serde = { version = "1", features = ["derive"] }
serde_json = "1"
signalsmith-stretch = "*"
tokio = { version = "1", features = ["macros", "rt-multi-thread"] }
toml = "0.8"
ureq = "2"

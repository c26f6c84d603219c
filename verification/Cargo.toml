[package]
name = "devlog"
version = "0.1.0"
edition = "2021"
publish = false

[dependencies]
chrono = "0.4"
regex = "1"
pulldown-cmark = "0.12"
unicode-width = "0.2"
clap = { version = "4", features = ["derive"] }
serde = { version = "1", features = ["derive"] }
serde_json = "1"
serde_yaml = "0.9"
toml = "0.8"
dirs = "5"
walkdir = "2"
tempfile = "3"
color-eyre = "0.6"
anyhow = "1"
crossterm = "0.28"
ratatui = "0.29"
tokio = { version = "1", features = ["rt-multi-thread", "fs", "macros"] }
async-trait = "0.1"
futures = "0.3"
console = "0.15"
dialoguer = "0.11"
azure_storage = "0.21"
azure_storage_blobs = "0.21"
async-openai = "0.24"

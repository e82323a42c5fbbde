[package]
name = "aw_notify"
version = "0.1.0"
edition = "2021"
publish = false

[dependencies]
anyhow = "1"
aw-client-rust = "*"
aw-models = "*"
chrono = "0.4"
clap = { version = "4", features = ["derive"] }
crossbeam-channel = "0.5"
ctrlc = "3"
dashmap = "*"
dirs = "*"
env_logger = "*"
fern = "*"
hostname = "*"
log = "0.4"
notify-rust = "4"
once_cell = "1"
serde = { version = "1", features = ["derive"] }
serde_json = "1"
toml = "*"
ureq = "2"

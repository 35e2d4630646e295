[package]
name = "draupnir"
version = "0.1.0"
edition = "2021"
publish = false

[dependencies]
age = "0.11"
anyhow = "1"
env_logger = "0.11"
log = "0.4"
nix = { version = "0.29", features = ["mount", "fs", "poll", "user"] }
serde = { version = "1", features = ["derive"] }
tar = "0.4"
toml = "0.8"
udev = "0.9"
zstd = "0.13"

[package]
name = "status_archive"
version = "0.1.0"
edition = "2021"
publish = false

[dependencies]
serde_json = "=1.0.151"
reqwest = { version = "=0.13.5", default-features = false, features = ["blocking", "query", "form"] }
clap = { version = "=4.6.7", features = ["derive", "env"] }
dotenvy = "=0.15.7"
env_logger = "=0.11.11"
log = "=0.4.34"
anyhow = "=1.0.104"

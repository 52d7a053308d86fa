[package]
name = "vnc_viewer"
version = "0.1.0"
edition = "2021"
publish = false

[dependencies]
env_logger = { version = "0.10", default-features = false }
log = "0.4"
serde = { version = "1", features = ["derive"] }
serde_json = "1"
vnc = "0.4"

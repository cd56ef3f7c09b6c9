[package]
name = "img_corroder"
version = "0.1.0"
edition = "2021"
publish = false

[dependencies]
image = "=0.23.14"
rand = "=0.8.5"
asdf-pixel-sort = "=0.2.0"
serde = { version = "1", features = ["derive"] }
serde_json = "1"
clap = { version = "4", features = ["derive"] }
log = "0.4"
env_logger = "0.11"

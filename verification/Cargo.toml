[package]
name = "dataset_tools"
version = "0.1.0"
edition = "2021"
publish = false

[dependencies]
safetensors = "*"
serde_json = "1"
rand = "0.8"
memmap2 = "*"
anyhow = "1"
log = "0.4"
env_logger = "*"
walkdir = "2"
glob = "0.3"
tokio = { version = "1", features = ["full"] }

[package]
name = "image_filter"
version = "0.1.0"
edition = "2021"
publish = false

[dependencies]
anyhow = "1"
clap = { version = "4", features = ["derive"] }
clap-verbosity-flag = "*"
env_logger = "*"
imagesize = "*"
log = "0.4"
serde = { version = "1", features = ["derive"] }
toml = "*"
walkdir = "2"

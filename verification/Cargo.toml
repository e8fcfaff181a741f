[package]
name = "disting_playlist"
version = "0.1.0"
edition = "2021"
publish = false

[dependencies]
clap = { version = "3", features = ["derive"] }
env_logger = "0.9"
lazy_static = "1"
log = "0.4"
musical_scales = "*"
regex = "1"

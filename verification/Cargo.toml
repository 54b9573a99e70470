[package]
name = "recovermov"
version = "0.1.0"
edition = "2021"
publish = false

[dependencies]
clap = { version = "4", features = ["derive"] }
indicatif = "0.17"
log = "0.4"
pretty_env_logger = "0.5"

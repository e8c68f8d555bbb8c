[package]
name = "chat"
version = "0.1.0"
edition = "2021"
publish = false

[dependencies]
clap = { version = "4", features = ["derive"] }
crossterm = "*"
log = "0.4"
pretty_env_logger = "0.5"

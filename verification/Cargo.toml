[package]
name = "takzero_learn"
version = "0.1.0"
edition = "2021"
publish = false

[dependencies]
rand = "0.8"
fast-tak = "*"
clap = { version = "4", features = ["derive"] }
log = "0.4"
env_logger = "0.10"

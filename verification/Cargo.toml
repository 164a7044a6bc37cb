[package]
name = "slime"
version = "0.1.0"
edition = "2021"
publish = false

[dependencies]
rand = "0.8"
pollster = "0.3"
instant = "0.1"
pretty_env_logger = "0.5"

[package]
name = "elevator"
version = "0.1.0"
edition = "2021"
publish = false

[dependencies]
rand = "0.9"
log = "0.4"
env_logger = "0.11"
crossbeam-channel = "0.5"
crossterm = "0.28"
ratatui = "0.29"

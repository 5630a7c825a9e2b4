[package]
name = "openrazer"
version = "0.1.0"
edition = "2021"
publish = false

[dependencies]
rand = "0.9"
evdev = "*"
log = "*"
env_logger = "*"
signal-hook = "*"
anyhow = "*"

[package]
name = "snapshot_decay"
version = "0.1.0"
edition = "2021"
publish = false

[dependencies]
regex = "1"
time = "0.1"
toml = "0.5"

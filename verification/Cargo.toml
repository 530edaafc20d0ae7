[package]
name = "dotrift"
version = "0.1.0"
edition = "2021"
publish = false

[dependencies]
glob = "=0.3.4"
dirs = "=7.0.0"
normalize-path = "=0.2.2"
twox-hash = "=2.1.5"
toml = "=1.1.8"
serde = { version = "=1.0.229", features = ["derive"] }
clap = { version = "=4.6.7", features = ["derive"] }
crossterm = "=0.29.0"
ignore = "=0.4.34"
indexmap = "=2.14.2"

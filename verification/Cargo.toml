[package]
name = "papyro"
version = "0.1.0"
edition = "2021"
publish = false

[dependencies]
anyhow = "1"
async-trait = "0.1"
chrono = "0.4"
dirs = "*"
flume = "*"
notify = "*"
open = "*"
rfd = "*"
walkdir = "2"
yaml-rust = "0.4"

[dev-dependencies]
tempfile = "3"

[package]
name = "wtf_cli"
version = "0.1.0"
edition = "2021"
publish = false

[dependencies]
chrono = "=0.4.45"
clap = "=4.6.7"
crossterm = "=0.28.1"
log = "=0.4.35"
env_logger = "=0.11.11"
once_cell = "=1.21.4"
regex = "1"

[package]
name = "umanux"
version = "0.1.0"
edition = "2021"
publish = false

[dependencies]
chrono = "0.4"
clap = "*"
difference = "2.0"
env_logger = "*"
log = "0.4"
simplelog = "*"

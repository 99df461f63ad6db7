[package]
name = "ferric_ftp"
version = "0.1.0"
edition = "2021"
publish = false

[dependencies]
chrono = "0.4"
env_logger = "0.11"
log = "0.4"
ssh2 = "0.9"

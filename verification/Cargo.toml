[package]
name = "simple_http_server"
version = "0.1.0"
edition = "2021"
publish = false

[dependencies]
json = "0.12"
log = "0.4"
env_logger = "0.10"
chrono = "0.4"

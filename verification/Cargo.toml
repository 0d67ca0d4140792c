[package]
name = "redpitaya"
version = "0.1.0"
edition = "2021"
publish = false

[dependencies]
conrod = "0.61"
env_logger = "=0.4.3"
log = "=0.3.9"

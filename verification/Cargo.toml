[package]
name = "womir_analyze"
version = "0.1.0"
edition = "2021"
publish = false

[dependencies]
env_logger = "*"
itertools = "*"
log = "0.4"
serde_json = "1"
wasmparser = "*"

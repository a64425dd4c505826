[package]
name = "typed_tree"
version = "0.1.0"
edition = "2021"
publish = false

[dependencies]
sled = "0.34"
bincode = "1"
log = "0.4"
env_logger = "*"

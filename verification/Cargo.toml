[package]
name = "maxwell_master"
version = "0.1.0"
edition = "2021"
publish = false

[dependencies]
crc32fast = "1"
rand = "0.8"
chrono = "0.4"
quick_cache = "*"

[package]
name = "dpt"
version = "0.1.0"
edition = "2021"
publish = false

[dependencies]
encoding = "0.2"
chrono = "0.4"
toml = "0.8"

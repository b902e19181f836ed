[package]
name = "byog"
version = "0.1.0"
edition = "2021"
publish = false

[dependencies]
csv = "1.3"
chrono = "0.4"
rand = "0.9"

[package]
name = "crush"
version = "0.1.0"
edition = "2021"
publish = false

[dependencies]
chrono = "0.4"
crossbeam = "0.7"
lazy_static = "1"
ordered-map = "0.4"
regex = "1"

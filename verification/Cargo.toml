[package]
name = "zejtron"
version = "11.0.0"
edition = "2021"
publish = false

[dependencies]
chrono = "0.4"

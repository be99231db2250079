[package]
name = "rhythm"
version = "0.1.0"
edition = "2021"
publish = false

[dependencies]
embedded-time = "0.12"

[dev-dependencies]
std-embedded-time = "*"

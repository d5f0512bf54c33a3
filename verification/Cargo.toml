[package]
name = "linalg"
version = "0.1.0"
edition = "2021"
publish = false

[dependencies]
num-traits = "0.2"
num = "0.4"
csv = "1"

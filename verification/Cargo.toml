[package]
name = "vemf"
version = "0.1.0"
edition = "2021"
publish = false

[dependencies]
num-integer = "=0.1.47"
rand = "=0.8.8"

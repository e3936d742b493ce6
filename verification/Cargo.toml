[package]
name = "noise_hex"
version = "0.1.0"
edition = "2021"
publish = false

[dependencies]
const-hex = "1"
rand = "0.8"

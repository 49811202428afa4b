[package]
name = "ips_patcher"
version = "0.1.0"
edition = "2021"
publish = false

[dependencies]
byteorder = "1"
miette = { version = "*", default-features = false }
pico-args = "0.5"

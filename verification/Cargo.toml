[package]
name = "state_key"
version = "0.1.0"
edition = "2021"
publish = false

[dependencies]
binascii = "*"

[package]
name = "aes_cipher"
version = "0.1.0"
edition = "2021"
publish = false

[dependencies]
hex = "0.4"

[package]
name = "smc"
version = "0.1.0"
edition = "2021"
publish = false

[dependencies]
four-char-code = "*"
libc = "*"

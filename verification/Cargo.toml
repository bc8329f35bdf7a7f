[package]
name = "catplay"
version = "0.1.0"
edition = "2021"
publish = false

[dependencies]
bytes = "1"
exp-golomb = "*"
libc = "0.2"

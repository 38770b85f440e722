[package]
name = "echo_reactor"
version = "0.1.0"
edition = "2021"
publish = false

[dependencies]
io-uring = "*"
libc = "*"
anyhow = "*"

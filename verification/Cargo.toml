[package]
name = "xpc-connection"
version = "0.3.0"
edition = "2021"
publish = false

[dependencies]
block = "0.1"
core-foundation = "0.9"
futures = "0.3"
libc = "0.2"
security-framework = "2"

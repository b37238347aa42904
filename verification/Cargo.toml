[package]
name = "idle_cosmic"
version = "0.1.0"
edition = "2021"
publish = false

[dependencies]
anyhow = "1"
libc = "0.2"
tracing = "0.1"

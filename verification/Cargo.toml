[package]
name = "timekeeper"
version = "0.1.0"
edition = "2021"
publish = false

[dependencies]
cpu-time = "*"
libc = "*"
nix = { version = "*", features = ["time"] }

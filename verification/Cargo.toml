[package]
name = "blockdev"
version = "0.1.0"
edition = "2021"
publish = false

[dependencies]
gptman = { version = "=0.6.5", default-features = false }
libc = "=0.2.191"
nix = "=0.17.0"
regex = "=1.13.1"
tempfile = "=3.27.0"

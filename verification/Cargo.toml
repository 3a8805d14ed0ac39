[package]
name = "samply_symbols"
version = "0.1.0"
edition = "2021"
publish = false

[dependencies]
memchr = "2"
serde_json = "1"
libc = "0.2"
nix = { version = "0.29", features = ["process", "fs"] }

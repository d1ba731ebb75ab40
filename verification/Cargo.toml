[package]
name = "bit_tunnel"
version = "0.1.0"
edition = "2021"
publish = false

[dependencies]
async-std = { version = "1", features = ["unstable"] }
getopts = "0.2"
log = "0.4"
time = "0.1"

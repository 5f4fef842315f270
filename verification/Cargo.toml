[package]
name = "aruntime"
version = "0.1.0"
edition = "2021"
publish = false

[dependencies]
futures = "0.3"
io-uring = "0.6"
libc = "0.2"
rustc-hash = "1.1"
socket2 = "0.4"

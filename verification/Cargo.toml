[package]
name = "hello_fs"
version = "0.1.0"
edition = "2021"
publish = false

[dependencies]
fuse = "=0.3.1"
libc = "=0.2.191"
nix = { version = "=0.31.3", features = ["user"] }
rand = "=0.8.8"
time = "=0.1.45"

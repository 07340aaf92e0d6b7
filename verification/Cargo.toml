[package]
name = "shellkit"
version = "0.1.0"
edition = "2021"
publish = false

[dependencies]
smallvec = "=1.16.4"
libc = "=0.2.191"

[package]
name = "readline-hooks"
version = "0.1.0"
edition = "2021"
publish = false

[dependencies]
shlex = "0.1"
libc = "0.2"

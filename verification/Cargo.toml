[package]
name = "teximage"
version = "0.1.0"
edition = "2021"
publish = false

[dependencies]
gl = "0.14"
glutin = "0.21"
libc = "0.2"

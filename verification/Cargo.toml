[package]
name = "fancy_slice"
version = "0.3.0"
edition = "2021"
publish = false

[dependencies]
byteorder = "1"

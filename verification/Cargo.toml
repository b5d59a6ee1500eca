[package]
name = "imf"
version = "0.1.0"
edition = "2021"
publish = false

[dependencies]
bytebuilder = "=0.1.2"

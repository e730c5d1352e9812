[package]
name = "robin"
version = "0.1.0"
edition = "2021"
publish = false

[dependencies]
raptorq = "*"
sha2 = "*"
rand = "*"

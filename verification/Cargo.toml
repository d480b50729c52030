[package]
name = "smallvecmap"
version = "0.1.0"
edition = "2021"
publish = false

[dependencies]
pi_null = "*"
smallvec = "*"

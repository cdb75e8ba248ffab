[package]
name = "clippo"
version = "0.1.0"
edition = "2021"
publish = false

[dependencies]
anyhow = "*"
arboard = "*"
tracing = "*"
tracing-subscriber = "*"

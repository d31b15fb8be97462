[package]
name = "pngpang"
version = "0.1.0"
edition = "2021"
publish = false

[dependencies]
crc = "3"
clap = { version = "4", features = ["derive"] }

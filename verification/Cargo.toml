[package]
name = "qnx6"
version = "0.1.0"
edition = "2021"
publish = false

[dependencies]
clap = { version = "4", features = ["derive"] }
gpt = "4"
mbrman = "*"
memmap2 = "0.9"

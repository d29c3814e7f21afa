[package]
name = "diskedit"
version = "0.1.0"
edition = "2021"
publish = false

[dependencies]
clap = { version = "4", features = ["derive"] }
gpt = "3.1"
uuid = "1"

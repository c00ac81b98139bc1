[package]
name = "dirlist"
version = "0.1.0"
edition = "2021"
publish = false

[dependencies]
anyhow = "1"
bytesize = "*"
chrono = "0.4"
clap = { version = "4", features = ["derive"] }
colored = "*"
walkdir = "2"

[package]
name = "open_directory"
version = "0.1.0"
edition = "2021"
publish = false

[dependencies]
anyhow = "1"
clap = "4"
fuzzy-matcher = "0.3"
itertools = "*"
powerpack = "*"

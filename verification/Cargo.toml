[package]
name = "mal_rust"
version = "0.1.0"
edition = "2021"
publish = false

[dependencies]
anyhow = "1"
itertools = "*"
lazy_static = "1"
regex = "1"
rustyline = "*"

[package]
name = "scoped_replace"
version = "0.1.0"
edition = "2021"
publish = false

[dependencies]
regex = "1"
clap = { version = "4", features = ["derive"] }
eyre = "0.6"
derive_more = { version = "1", features = ["display"] }
itertools = "*"

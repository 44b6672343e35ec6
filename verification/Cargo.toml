[package]
name = "sfa"
version = "0.1.0"
edition = "2021"
publish = false

[dependencies]
clap = { version = "=4.6.7", features = ["derive"] }
globset = "=0.4.20"
parse-size = "=1.1.0"
path_jail = { version = "=0.5.0", features = ["secure-open"] }
pretty-hex = "=0.4.2"

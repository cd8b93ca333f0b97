[package]
name = "zq"
version = "0.1.0"
edition = "2021"
publish = false

[dependencies]
simdjson-rust = "=0.2.0-alpha"
flate2 = "*"
clap = { version = "*", features = ["derive"] }
rayon = "*"

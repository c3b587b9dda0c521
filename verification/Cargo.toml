[package]
name = "deeprs"
version = "0.1.0"
edition = "2021"
publish = false

[dependencies]
clap = "*"
dirs = "*"
reqwest = { version = "*", default-features = false, features = ["blocking"] }

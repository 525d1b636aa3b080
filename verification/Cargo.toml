[package]
name = "rewind"
version = "0.1.0"
edition = "2021"
publish = false

[dependencies]
chrono = "*"
notify-rust = { version = "*", default-features = false, features = ["z"] }

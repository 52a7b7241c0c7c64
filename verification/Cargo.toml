[package]
name = "xmlmerge"
version = "0.1.0"
edition = "2021"
publish = false

[dependencies]
anyhow = "*"
chrono = "*"
clap = { version = "*", features = ["derive"] }
dirs = "*"
regex = "*"
uuid = { version = "*", features = ["v4"] }

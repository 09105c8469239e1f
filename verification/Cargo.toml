[package]
name = "srs-cli"
version = "0.1.0"
edition = "2021"
publish = false

[dependencies]
anyhow = "1"
dialoguer = "*"
fastrand = "2"
rusqlite = "*"
scrawl = "*"
time = { version = "0.3", features = ["local-offset"] }

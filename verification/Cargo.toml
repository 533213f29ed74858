[package]
name = "dupfinder"
version = "0.1.0"
edition = "2021"
publish = false

[dependencies]
clap = { version = "*", features = ["derive"] }
glob = "*"
indicatif = "*"
md-5 = "*"
serde = { version = "*", features = ["derive"] }
serde_json = "*"
walkdir = "*"

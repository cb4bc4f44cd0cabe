[package]
name = "pmatinit"
version = "0.1.0"
edition = "2021"
publish = false

[dependencies]
ansi_term = "*"
anyhow = "*"
clap = { version = "*", features = ["derive"] }
dirs = "*"
rustyline = "*"
similar = "*"

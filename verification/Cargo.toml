[package]
name = "micro_scheme"
version = "0.1.0"
edition = "2021"
publish = false

[dependencies]
anyhow = "1"
ansi_term = "0.12"
ariadne = "*"
clap = { version = "4", features = ["derive"] }
ezio = "*"
rustyline = "*"

[package]
name = "sonance"
version = "0.1.0"
edition = "2021"
publish = false

[dependencies]
itertools = "*"
ariadne = "*"
clap = { version = "*", features = ["derive"] }
chumsky = "*"
logos = "*"

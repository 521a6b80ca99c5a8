[package]
name = "mini_scheme"
version = "0.1.0"
edition = "2021"
publish = false

[dependencies]
ansi_term = "0.12"
bigdecimal = "0.4"
rustyline = "*"

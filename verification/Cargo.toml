[package]
name = "fixext"
version = "0.1.0"
edition = "2021"
publish = false

[dependencies]
regex = "*"
shellwords = "*"
ansi_term = "*"
clap = "2"
rustyline = "*"
magic = "*"

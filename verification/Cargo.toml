[package]
name = "trfilter"
version = "0.1.0"
edition = "2021"
publish = false

[dependencies]
globset = "*"
walkdir = "2"
clap = "2"
ansi_term = "*"

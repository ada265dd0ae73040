[package]
name = "vrac"
version = "0.1.0"
edition = "2021"
publish = false

[dependencies]
getrandom = "0.3"
unicode-width = "0.2"
crossterm = "*"
dirs = "*"
tempfile = "*"

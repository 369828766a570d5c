[package]
name = "unmake"
version = "0.1.0"
edition = "2021"
publish = false

[dependencies]
die = "*"
getopts = "*"
walkdir = "*"

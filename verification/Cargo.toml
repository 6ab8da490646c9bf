[package]
name = "tfm"
version = "0.1.0"
edition = "2021"
publish = false

[dependencies]
chrono = "0.4"
crossbeam-channel = "0.5"
crossterm = "*"
log = "0.4"
simplelog = "*"
unicode-width = "*"
users = "0.11"
walkdir = "2"

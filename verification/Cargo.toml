[package]
name = "shisen"
version = "0.1.0"
edition = "2021"
publish = false

[dependencies]
rand = "0.8"
anyhow = "1"
crossterm = "0.25"
tui = "0.19"

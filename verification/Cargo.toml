[package]
name = "log_list"
version = "0.1.0"
edition = "2021"
publish = false

[dependencies]
tui = { version = "0.16", default-features = false }
crossterm = "0.20"

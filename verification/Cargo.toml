[package]
name = "fjord"
version = "0.1.0"
edition = "2021"
publish = false

[dependencies]
anyhow = "1"
crossterm = "*"
dirs = "*"
rustyline = "*"
is_executable = "*"
itertools = "*"
thiserror = "1"

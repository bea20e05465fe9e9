[package]
name = "attrnav"
version = "0.1.0"
edition = "2021"
publish = false

[dependencies]
clap = "4"
crossterm = "0.25"
tui = "0.19"

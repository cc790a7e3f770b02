[package]
name = "rmg_tool"
version = "0.1.0"
edition = "2021"
publish = false

[dependencies]
regex = "1"
itertools = "0.10"
yaml-rust = "0.4"
clap = "2"
postgres = "0.19"
users = "0.11"

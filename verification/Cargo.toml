[package]
name = "eolconv"
version = "0.1.0"
edition = "2021"
publish = false

[dependencies]
anyhow = "*"
clap = "*"
glob = "*"
temp-file = "*"

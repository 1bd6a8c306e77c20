[package]
name = "apachetop"
version = "0.1.0"
edition = "2021"
publish = false

[dependencies]
anyhow = "*"
bstr = "*"
chrono = "*"
crossbeam-channel = "*"
crossterm = "*"
fern = "*"
lazy_static = "*"
lazysort = "*"
log = "*"
log-panics = "*"
regex = "*"
structopt = "*"

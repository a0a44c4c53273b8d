[package]
name = "wirth"
version = "0.1.0"
edition = "2021"
publish = false

[dependencies]
bincode = "1"
structopt = "0.3"

[package]
name = "genetics"
version = "0.1.0"
edition = "2021"
publish = false

[dependencies]
rand = "0.4"
clap = "2"
log = "0.3"
simplelog = "*"

[package]
name = "csurename"
version = "1.3.0"
edition = "2021"
publish = false

[dependencies]
clap = "3"
ignore = "0.4"

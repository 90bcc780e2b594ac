[package]
name = "csvinfo"
version = "0.4.0"
edition = "2021"
publish = false

[dependencies]
clap = "2"
csv = "1"
tabular = "0.2"

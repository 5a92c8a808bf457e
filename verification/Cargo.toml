[package]
name = "netscope"
version = "0.1.0"
edition = "2021"
publish = false

[dependencies]
regex = "1"
crossbeam-channel = "0.5"

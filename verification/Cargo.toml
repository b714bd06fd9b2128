[package]
name = "taffyrb"
version = "0.1.0"
edition = "2021"
publish = false

[dependencies]
taffy = "=0.3.19"
magnus = "0.6"

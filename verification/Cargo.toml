[package]
name = "orm"
version = "0.1.0"
edition = "2021"
publish = false

[dependencies]
regex = "1"
rustc-serialize = "0.3"
mysql = "*"
syntex_syntax = "*"
syntex_errors = "*"

[package]
name = "eastmoneyx"
version = "0.1.1"
edition = "2021"
publish = false

[dependencies]
csv = "1"
thiserror = "2"

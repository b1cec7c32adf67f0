[package]
name = "htmd"
version = "0.1.0"
edition = "2021"
publish = false

[dependencies]
markup5ever_rcdom = "*"

[package]
name = "cynic_parser"
version = "0.1.0"
edition = "2021"
publish = false

[dependencies]
indexmap = "2"
pretty = "0.12"

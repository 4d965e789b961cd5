[package]
name = "langmatch"
version = "0.1.0"
edition = "2021"
publish = false

[dependencies]
isolang = "2"
language-tags = "0.3"
tempfile = "3"

[package]
name = "markdown_it"
version = "0.1.0"
edition = "2021"
publish = false

[dependencies]
github-slugger = "*"
regex = "1"

[package]
name = "problem_panel"
version = "0.1.0"
edition = "2021"
publish = false

[dependencies]
itertools = "*"
log = "*"
lsp-types = "0.94"

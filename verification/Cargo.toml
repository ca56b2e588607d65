[package]
name = "tylax"
version = "0.1.0"
edition = "2021"
publish = false

[dependencies]
typst = "*"
typst-eval = "*"
typst-library = "*"
typst-realize = "*"
typst-utils = "*"
comemo = "*"
codex = "*"

[package]
name = "surfacide"
version = "0.1.0"
edition = "2021"
publish = false

[dependencies]
indexmap = "2"
miette = { version = "7", features = ["fancy"] }
anyhow = "1"
clap = { version = "4", features = ["derive"] }
camino = "1"
tree-sitter = "*"

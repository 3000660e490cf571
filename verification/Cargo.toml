[package]
name = "ctxhelpr"
version = "0.1.0"
edition = "2021"
publish = false

[dependencies]
anyhow = "*"
clap = { version = "*", features = ["derive"] }
dirs = "*"
hex = "*"
ignore = "*"
notify = "*"
owo-colors = { version = "*", features = ["supports-colors"] }
serde = { version = "*", features = ["derive"] }
serde_json = "*"
sha2 = "*"
tree-sitter = "*"
tree-sitter-md = "*"
tree-sitter-python = "*"
tree-sitter-ruby = "*"
tree-sitter-rust = "*"
tree-sitter-typescript = "*"
walkdir = "*"

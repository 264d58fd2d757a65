[package]
name = "arbor"
version = "0.1.0"
edition = "2021"
publish = false

[dependencies]
tree-sitter = "0.20"
tree-sitter-python = "0.20"
tree-sitter-rust = "0.20"
tree-sitter-typescript = "0.20"
serde = { version = "1", features = ["derive"] }

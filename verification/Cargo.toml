[package]
name = "dossier"
version = "0.1.0"
edition = "2021"
publish = false

[dependencies]
tree-sitter = "=0.20.10"
tree-sitter-typescript = "=0.20.5"
tree-sitter-python = "=0.20.4"
indexmap = "2"
serde = { version = "1", features = ["derive"] }
serde_json = "1"
clap = { version = "4.5", features = ["derive"] }
wild = "2"
pretty-duration = "*"
thiserror = "1"

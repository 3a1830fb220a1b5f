[package]
name = "typope"
version = "0.3.0"
edition = "2021"
publish = false

[dependencies]
anyhow = "=1.0.104"
btree-range-map = "=0.8.2"
clap = { version = "=4.6.7", features = ["derive"] }
globset = "=0.4.20"
ignore = "=0.4.33"
miette = { version = "=7.6.0", features = ["fancy"] }
rayon = "=1.12.0"
regex = "=1.13.1"
serde = { version = "=1.0.229", features = ["derive"] }
serde_regex = "=1.2.0"
tempfile = "=3.27.0"
thiserror = "=1.0.69"
toml = "=1.1.8"
tree-sitter = "=0.27.1"
tree-sitter-c = "=0.24.2"
tree-sitter-cpp = "=0.23.4"
tree-sitter-go = "=0.25.0"
tree-sitter-javascript = "=0.25.0"
tree-sitter-json = "=0.24.8"
tree-sitter-kotlin-sg = "=0.4.1"
tree-sitter-md = { version = "=0.5.4", features = ["parser"] }
tree-sitter-python = "=0.25.0"
tree-sitter-rust = "=0.24.2"
tree-sitter-toml-ng = "=0.7.0"
tree-sitter-typescript = "=0.23.2"
tree-sitter-yaml = "=0.7.2"

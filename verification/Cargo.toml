[package]
name = "control_cli"
version = "0.1.0"
edition = "2021"
publish = false

[dependencies]
tree-sitter = "0.20"
tree-sitter-java = "0.20"
tree-sitter-javascript = "0.20"
tree-sitter-typescript = "0.20"
brotli = "3"
clap = { version = "4", features = ["derive"] }
confy = "0.5"
serde = { version = "1", features = ["derive"] }
serde_json = "1"

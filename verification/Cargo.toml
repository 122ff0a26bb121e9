[package]
name = "firm_lang"
version = "0.1.0"
edition = "2021"
publish = false

[dependencies]
tree-sitter = "*"
tower-lsp-server = "*"
tokio = { version = "*", features = ["rt-multi-thread", "macros", "io-std"] }
clap = { version = "*", features = ["derive"] }

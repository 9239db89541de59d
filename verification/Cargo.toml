[package]
name = "edit_core"
version = "0.1.0"
edition = "2021"
publish = false

[dependencies]
ropey = "1.6"
tree-sitter = "0.22"
tree-sitter-rust = "0.21"
ratatui = "0.29"
clap = { version = "4", features = ["derive"] }

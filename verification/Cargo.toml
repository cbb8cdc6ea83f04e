[package]
name = "modkei-core"
version = "0.1.6"
edition = "2021"
publish = false

[dependencies]
tree-sitter = "=0.27.1"
tree-sitter-rust = "=0.24.2"
tree-sitter-go = "=0.25.0"
tree-sitter-c = "=0.24.2"
tree-sitter-cpp = "=0.23.4"
tree-sitter-java = "=0.23.5"
tree-sitter-bash = "=0.25.1"
tree-sitter-python = "=0.25.0"
tree-sitter-typescript = "=0.23.2"
tree-sitter-make = "=1.1.1"
tree-sitter-cmake = "=0.7.6"
ra_ap_syntax = "=0.0.330"
serde = { version = "=1.0.229", features = ["derive"] }
serde_json = "=1.0.154"
anyhow = "=1.0.104"
clap = { version = "=4.6.7", features = ["derive"] }
crossbeam-channel = "=0.5.17"
crossterm = "=0.29.0"
ratatui = "=0.30.2"
rayon = "=1.12.0"
ignore = "=0.4.34"
indicatif = "=0.18.6"
open = "=5.4.5"
ctrlc = "=3.5.2"

[package]
name = "carrot"
version = "0.1.0"
edition = "2021"
publish = false

[dependencies]
tree-sitter = "0.25"
tree-sitter-bash = "0.25"
tree-sitter-fish = "3.6"
serde = { version = "1", features = ["derive"] }
serde_json = "1"
sysinfo = "0.37"
dirs = "6"
thiserror = "2"

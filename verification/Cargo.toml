[package]
name = "amble_lsp"
version = "0.1.0"
edition = "2021"
publish = false

[dependencies]
dashmap = "*"
parking_lot = "*"
serde_json = "*"
tokio = { version = "1", features = ["full"] }
tower-lsp = "*"
tree-sitter = "*"
walkdir = "*"
zed_extension_api = "*"

[package]
name = "angularjs_lsp"
version = "0.1.0"
edition = "2021"
publish = false

[dependencies]
dashmap = "6"
tower-lsp = "0.20"
serde = { version = "1", features = ["derive"] }
serde_json = "1"
tokio = { version = "1", features = ["full"] }
tracing = "0.1"
tree-sitter = "*"
tree-sitter-javascript = "*"

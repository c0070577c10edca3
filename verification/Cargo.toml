[package]
name = "blase"
version = "0.1.0"
edition = "2021"
publish = false

[dependencies]
line-index = "0.1"
dashmap = "6"
tree-sitter = "0.25"
async-lsp = { version = "0.2", features = ["tokio"] }
tokio = { version = "1", features = ["full"] }
tokio-util = { version = "0.7", features = ["compat"] }
futures = "0.3"
tracing = "0.1"
tracing-appender = "0.2"
tracing-subscriber = "0.3"
crossbeam-channel = "0.5"
walkdir = "2"

[dev-dependencies]
tree-sitter-html = "*"
tree-sitter-json = "*"

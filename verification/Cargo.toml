[package]
name = "zed_markdown_fold"
version = "0.3.0"
edition = "2021"
publish = false

[dependencies]
lsp-server = "0.7"
lsp-types = "0.97"
serde_json = "1"
zed_extension_api = "0.7"

[package]
name = "ctx"
version = "0.1.0"
edition = "2021"
publish = false

[dependencies]
blake3 = "1"
tree-sitter = "0.23"
tree-sitter-typescript = "0.23"
tree-sitter-javascript = "0.23"
tree-sitter-css = "0.23"
tree-sitter-html = "0.23"
tree-sitter-json = "0.23"
anyhow = "1"
thiserror = "2"
serde = { version = "1", features = ["derive"] }
serde_json = "1"
tokio = { version = "1", features = ["full"] }
async-trait = "0.1"
tracing = "0.1"
tracing-subscriber = { version = "0.3", features = ["env-filter"] }
clap = { version = "4", features = ["derive"] }
dirs = "*"
url = "2"
lsp-types = "0.97"
ignore = "0.4"
parking_lot = "0.12"
redb = "*"
notify = "*"
notify-debouncer-full = "*"
rmcp = { version = "*", features = ["server", "transport-io", "transport-streamable-http-server"] }
schemars = "1"
axum = "*"
futures = "0.3"

[package]
name = "libcpg"
version = "0.1.0"
edition = "2021"
publish = false

[dependencies]
tree-sitter = "*"
tree-sitter-rust = "*"
tree-sitter-python = "*"
tree-sitter-javascript = "*"
tree-sitter-typescript = "*"
tree-sitter-go = "*"
tree-sitter-java = "*"
tree-sitter-c = "*"
tree-sitter-cpp = "*"
tree-sitter-ruby = "*"
tree-sitter-bash = "*"
tree-sitter-json = "*"
tree-sitter-yaml = "*"
tree-sitter-toml-ng = "*"
tree-sitter-html = "*"
tree-sitter-css = "*"
tree-sitter-md = "*"
petgraph = "*"
ndarray = "*"
rand = "*"
thiserror = "*"
serde = { version = "*", features = ["derive"] }
rustc-hash = "*"
smallvec = "*"

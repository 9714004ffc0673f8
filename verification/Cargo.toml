[package]
name = "ordo"
version = "0.1.0"
edition = "2021"
publish = false

[dependencies]
globset = "*"
ratatui = "*"
serde = { version = "1", features = ["derive"] }
serde_json = "1"
toml = "*"
tree-sitter = "*"
tree-sitter-bash = "*"
tree-sitter-c = "*"
tree-sitter-cmake = "*"
tree-sitter-cpp = "*"
tree-sitter-css = "*"
tree-sitter-go = "*"
tree-sitter-highlight = "*"
tree-sitter-html = "*"
tree-sitter-ini = "*"
tree-sitter-java = "*"
tree-sitter-javascript = "*"
tree-sitter-json = "*"
tree-sitter-lua = "*"
tree-sitter-make = "*"
tree-sitter-md = "*"
tree-sitter-nix = "*"
tree-sitter-python = "*"
tree-sitter-rust = "*"
tree-sitter-svelte-ng = "*"
tree-sitter-toml-ng = "*"
tree-sitter-typescript = "*"
tree-sitter-xonsh = "*"
tree-sitter-yaml = "*"

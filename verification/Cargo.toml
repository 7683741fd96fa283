[package]
name = "maharajah"
version = "0.1.0"
edition = "2021"
publish = false

[dependencies]
tree-sitter = "*"
tree-sitter-rust = "*"
tree-sitter-python = "*"
tree-sitter-java = "*"
tree-sitter-c-sharp = "*"
tree-sitter-scala = "*"
tree-sitter-haskell = "*"
tree-sitter-javascript = "*"
tree-sitter-typescript = "*"
tree-sitter-go = "*"
tree-sitter-ruby = "*"
tree-sitter-fsharp = "*"
glob = "*"
sha2 = "*"
tokenizers = { version = "*", default-features = false, features = ["onig"] }
walkdir = "*"
notify = "*"
clap = { version = "*", features = ["derive"] }
serde = { version = "*", features = ["derive"] }
serde_json = "*"
figment = { version = "*", features = ["toml", "env"] }
thiserror = "*"
tokio = { version = "*", features = ["full"] }
ureq = { version = "*", default-features = false, features = ["json"] }
futures = "*"
tracing = "*"
dirs = "*"

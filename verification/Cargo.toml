[package]
name = "semfs"
version = "0.1.0"
edition = "2021"
publish = false

[dependencies]
regex = "=1.13.1"
chrono = { version = "=0.4.45", default-features = false, features = ["clock", "std"] }
sha2 = "=0.10.9"
tree-sitter = "=0.20.10"
tree-sitter-rust = "=0.20.4"
tree-sitter-python = "=0.20.4"
tree-sitter-javascript = "=0.20.4"
tree-sitter-typescript = "=0.20.5"
tree-sitter-go = "=0.20.0"
tree-sitter-java = "=0.20.2"
tree-sitter-kotlin = "=0.3.5"
rusqlite = { version = "=0.31.0", features = ["bundled"] }
parking_lot = "=0.12.5"
notify = "=6.1.1"
crossbeam-channel = "=0.5.17"
serde = { version = "=1.0.229", features = ["derive"] }
serde_json = "=1.0.154"
toml = "=0.8.23"
dirs = "=5.0.1"
clap = { version = "=4.6.7", features = ["derive"] }
anyhow = "=1.0.104"
thiserror = "=1.0.69"
tracing = "=0.1.44"
tracing-subscriber = { version = "=0.3.23", features = ["env-filter"] }
fuser = { version = "=0.18.0", default-features = false }
libc = "=0.2.191"
reqwest = { version = "=0.12.28", default-features = false, features = ["blocking", "json"] }

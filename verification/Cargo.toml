[package]
name = "cargo-test-lint"
version = "0.1.0"
edition = "2021"
publish = false

[dependencies]
anyhow = "1"
clap = { version = "4", features = ["derive"] }
ignore = "*"
notify = "*"
regex = "*"
serde = { version = "1", features = ["derive"] }
serde_json = "1"
streaming-iterator = "*"
tokio = { version = "1", features = ["full"] }
toml = "*"
tracing = "*"
tree-sitter = "*"
tree-sitter-rust = "*"

[package]
name = "nh_validation"
version = "0.1.0"
edition = "2021"
publish = false

[dependencies]
anyhow = "1"
glob = "0.3"
json-position-parser = "*"
lsp-server = "0.7"
lsp-types = "0.95"
reqwest = { version = "*", features = ["blocking"] }
roxmltree = "0.18"
serde = { version = "1", features = ["derive"] }
serde_json = "1"

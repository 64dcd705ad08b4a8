[package]
name = "depbank"
version = "0.1.0"
edition = "2021"
publish = false

[dependencies]
toml = "*"
anyhow = "*"
clap = { version = "*", features = ["derive"] }
dirs = "*"
codebank = "*"
tokenizers = { version = "*", features = ["http"] }

[package]
name = "storage_lint"
version = "0.1.0"
edition = "2021"
publish = false

[dependencies]
slang_solidity = "=0.17.0"
metaslang_cst = "=0.17.0"
toml = "=1.1.7"
tokio = { version = "=1.53.2", features = ["rt-multi-thread", "macros"] }
async-channel = "=2.5.0"
walkdir = "=2.5.0"
anyhow = "=1.0.104"

[package]
name = "lspz"
version = "0.1.0"
edition = "2021"
publish = false

[dependencies]
serde_json = "1"
shell-words = "1"
clap = { version = "4", features = ["derive"] }
dirs = "5"

[package]
name = "anchor-compressed-notes"
version = "0.1.0"
edition = "2021"
publish = false

[dependencies]
anchor-lang = "=0.28.0"
spl-account-compression = { version = "=0.2.0", features = ["cpi"] }

[package]
name = "rust_personal_site"
version = "0.1.0"
edition = "2021"
publish = false

[dependencies]
anyhow = "1"
pulldown-cmark = { version = "*", default-features = false, features = ["html"] }
walkdir = "2"

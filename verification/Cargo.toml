[package]
name = "typebook"
version = "0.1.0"
edition = "2021"
publish = false

[dependencies]
anyhow = "1"
dirs = "*"
roxmltree = "*"
simplecss = "*"
url = "2"
zip = { version = "*", default-features = false, features = ["deflate"] }

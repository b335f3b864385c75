[package]
name = "never_notes"
version = "0.1.0"
edition = "2021"
publish = false

[dependencies]
pulldown-cmark = "0.9"
serde_json = "*"
anyhow = "*"
web-view = "*"

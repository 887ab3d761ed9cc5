[package]
name = "mdbook-timeline"
version = "0.1.0"
edition = "2021"
publish = false

[dependencies]
pulldown-cmark = "*"
mdbook-preprocessor = "*"
clap = "4"
anyhow = "1"
serde_json = "1"

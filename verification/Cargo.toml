[package]
name = "mdbook_frontmatter_strip"
version = "0.1.0"
edition = "2021"
publish = false

[dependencies]
anyhow = "=1.0.104"
clap = { version = "=4.6.7", features = ["derive"] }
mdbook = { version = "=0.4.52", default-features = false }
serde_json = "=1.0.151"

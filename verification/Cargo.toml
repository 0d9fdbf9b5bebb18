[package]
name = "markdown_pipeline"
version = "0.1.0"
edition = "2021"
publish = false

[dependencies]
sha1 = "*"
hoedown = "*"

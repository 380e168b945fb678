[package]
name = "pdf_chapters"
version = "0.1.0"
edition = "2021"
publish = false

[dependencies]
anyhow = "1"
mupdf = { version = "0.4", default-features = false }

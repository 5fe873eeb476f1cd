[package]
name = "nibarchive"
version = "1.0.0"
edition = "2021"
publish = false

[dependencies]
anyhow = "*"
argh = "*"
serde_json = "*"

[package]
name = "json-slabs"
version = "0.1.0"
edition = "2021"
publish = false

[dependencies]
actson = "*"
anyhow = "*"
clap = { version = "*", features = ["derive"] }
humansize = "*"
json-writer = "*"
thiserror = "*"

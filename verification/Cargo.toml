[package]
name = "sass_dep"
version = "0.1.0"
edition = "2021"
publish = false

[dependencies]
petgraph = "0.6"
indexmap = "2"
anyhow = "1"
walkdir = "2"
clap = { version = "4", features = ["derive"] }
serde = { version = "1", features = ["derive"] }
serde_json = "1"

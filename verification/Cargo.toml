[package]
name = "sentinel"
version = "0.2.0"
edition = "2021"
publish = false

[dependencies]
anyhow = "1"
clap = { version = "4", features = ["derive"] }
colored = "2"
core_affinity = "0.8"
serde = { version = "1", features = ["derive"] }
serde_json = "1"

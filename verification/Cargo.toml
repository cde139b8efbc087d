[package]
name = "docpact"
version = "0.1.0"
edition = "2021"
publish = false

[dependencies]
clap = { version = "4", features = ["derive"] }
miette = "7"
serde = { version = "1", features = ["derive"] }
serde_json = "1"
yaml_serde = "*"

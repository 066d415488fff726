[package]
name = "pipeline"
version = "0.1.0"
edition = "2021"
publish = false

[dependencies]
clap = { version = "4", features = ["derive"] }
indexmap = { version = "2", features = ["serde"] }
semver = "1"
serde = { version = "1", features = ["derive"] }
tempfile = "3"
thiserror = "2"
yaml_serde = "*"

[package]
name = "artifact_name"
version = "0.1.0"
edition = "2021"
publish = false

[dependencies]
failure = "0.1"
lazy_static = "1"
serde = "1"

[dev-dependencies]
regex = "1"
serde_json = "1"

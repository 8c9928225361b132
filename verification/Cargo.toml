[package]
name = "degreepath_auditor"
version = "0.1.0"
edition = "2021"
publish = false

[dependencies]
serde = { version = "1", features = ["derive"] }
serde_derive = "1"
serde_yaml = "0.8"
indexmap = { version = "1", features = ["serde-1"] }

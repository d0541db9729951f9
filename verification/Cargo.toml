[package]
name = "apollo_federation"
version = "0.1.0"
edition = "2021"
publish = false

[dependencies]
apollo-compiler = "1"
indexmap = "2"
itertools = "0.14"
clap = { version = "4", features = ["derive"] }
serde = { version = "1", features = ["derive"] }
serde_json = "1"
tracing-subscriber = { version = "0.3", features = ["env-filter"] }

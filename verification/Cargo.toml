[package]
name = "nargo"
version = "0.1.0"
edition = "2021"
publish = false

[dependencies]
anyhow = "1"
assert-json-diff = "2"
lexopt = "0.3"
semver = "1"
serde = { version = "1", features = ["derive"] }
serde_json = { version = "1", features = ["raw_value"] }

[package]
name = "utd_cause"
version = "0.1.0"
edition = "2021"
publish = false

[dependencies]
ruma = { version = "0.12", features = ["events", "compat-user-id", "compat-arbitrary-length-ids", "compat-tag-info", "compat-encrypted-stickers"] }
serde = { version = "1", features = ["derive"] }
serde_json = { version = "1", features = ["raw_value"] }

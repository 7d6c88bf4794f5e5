[package]
name = "silo"
version = "0.1.0"
edition = "2021"
publish = false

[dependencies]
ulid = "1"
chrono = "0.4"
unicode-segmentation = "1"
serde = { version = "1", features = ["derive"] }
serde_json = "1"
serde_yaml = "0.9"
rusqlite = { version = "*", features = ["bundled"] }
notify = "*"
tempfile = "3"
directories = "*"
anyhow = "1"
thiserror = "*"
tracing-subscriber = "0.3"

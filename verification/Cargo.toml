[package]
name = "bootc_migrate_core"
version = "0.1.0"
edition = "2021"
publish = false

[dependencies]
anyhow = "1"
rustix = { version = "1", features = ["fs", "pipe", "process", "stdio", "thread"] }
serde = { version = "1", features = ["derive"] }
serde_json = "1"
tempfile = "3"
tini = "1"

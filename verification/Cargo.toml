[package]
name = "code2graph"
version = "0.1.0"
edition = "2021"
publish = false

[dependencies]
blake3 = "1"
directories = "*"
ignore = "0.4"
rusqlite = { version = "*", features = ["bundled"] }
serde = { version = "1", features = ["derive"] }
serde_json = "1"
thiserror = "2"
toml = "*"

[dev-dependencies]
tempfile = "3"

[package]
name = "arc_labs"
version = "0.1.0"
edition = "2021"
publish = false

[dependencies]
blake3 = "=1.8.7"
similar = "=2.7.0"
comrak = "=0.59.0"
serde = { version = "=1.0.229", features = ["derive"] }
serde_json = { version = "=1.0.154", features = ["preserve_order"] }
toml = "=1.1.8"
walkdir = "=2.5.0"
dunce = "=1.0.5"
which = "=8.0.6"
rusqlite = { version = "=0.41.1", features = ["bundled"] }
sqlite-vec = "=0.1.9"

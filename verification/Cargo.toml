[package]
name = "reclaim_core"
version = "0.1.0"
edition = "2021"
publish = false

[dependencies]
chrono = { version = "0.4", default-features = false, features = ["clock", "std"] }
seahash = "4"
serde_json = "1"
serde = { version = "1", features = ["derive"] }
anyhow = "1"
clap = { version = "4", features = ["derive"] }
dirs = "5"
walkdir = "2"
rusqlite = { version = "0.32", features = ["bundled"] }
toml = "0.8"
rayon = "1"
crossbeam-channel = "0.5"

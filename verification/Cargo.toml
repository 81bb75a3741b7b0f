[package]
name = "liangmu_history"
version = "0.1.0"
edition = "2021"
publish = false

[dependencies]
serde = { version = "1", features = ["derive"] }
serde_json = "1"
lru = "0.12"
rayon = "1"
walkdir = "2"
dirs = "5"
lazy_static = "1"
rusqlite = { version = "0.31", features = ["bundled"] }
pyo3 = "0.22"

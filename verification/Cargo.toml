[package]
name = "excel_engine"
version = "0.1.0"
edition = "2021"
publish = false

[dependencies]
anyhow = "*"
calamine = "*"
crossbeam-channel = "*"
dashmap = "*"
env_logger = "*"
rand = "*"
rayon = "*"
regex = "*"
rusqlite = { version = "*", features = ["bundled"] }
rust_xlsxwriter = "*"
serde = { version = "*", features = ["derive"] }
serde_json = "*"
unicode-normalization = "*"

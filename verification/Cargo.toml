[package]
name = "explorer_rs"
version = "0.1.0"
edition = "2021"
publish = false

[dependencies]
anyhow = "1"
chrono = { version = "0.4", default-features = false, features = ["clock", "std"] }
dirs = "5"
notify = { version = "6", default-features = false }
open = "5"
serde = { version = "1", features = ["derive"] }
serde_json = "1"
trash = { version = "5", default-features = false }
walkdir = "2"

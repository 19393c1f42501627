[package]
name = "disk_scan"
version = "0.1.0"
edition = "2021"
publish = false

[dependencies]
dirs = "5"
rayon = "1"
serde = { version = "1", features = ["derive"] }
serde_json = "1"
walkdir = "2"

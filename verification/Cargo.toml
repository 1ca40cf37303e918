[package]
name = "proofsheet"
version = "0.1.0"
edition = "2021"
publish = false

[dependencies]
anyhow = "*"
chrono = "*"
clap = { version = "*", features = ["derive"] }
crossterm = "*"
humansize = "*"
image = "*"
kamadak-exif = "*"
ratatui = "*"
rayon = "*"
serde = { version = "*", features = ["derive"] }
serde_json = "*"
tempfile = "*"
walkdir = "*"

[dev-dependencies]
natord = "*"

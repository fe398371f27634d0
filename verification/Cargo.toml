[package]
name = "iphoto"
version = "0.1.2"
edition = "2021"
publish = false

[dependencies]
clap = { version = "*", features = ["derive"] }
glob = "*"
kamadak-exif = "*"
kdam = { version = "*", features = ["rich", "spinner"] }
serde = { version = "*", features = ["derive"] }
thiserror = "*"
walkdir = "*"

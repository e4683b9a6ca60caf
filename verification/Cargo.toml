[package]
name = "jamoa"
version = "0.1.0"
edition = "2021"
publish = false

[dependencies]
unicode-normalization = "0.1"
same-file = "1"
walkdir = "2"
notify = "8"
serde = { version = "1", features = ["derive"] }
serde_json = "1"

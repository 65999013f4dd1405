[package]
name = "codefinder"
version = "0.1.0"
edition = "2021"
publish = false

[dependencies]
chrono = { version = "=0.4.45", default-features = false, features = ["clock", "std"] }
git2 = { version = "=0.19.0", default-features = false }
walkdir = "=2.5.0"
serde = { version = "=1.0.229", features = ["derive"] }
serde_json = "=1.0.154"
pulldown-cmark = { version = "=0.13.6", default-features = false, features = ["html"] }

[package]
name = "docsearch"
version = "0.1.0"
edition = "2021"
publish = false

[dependencies]
chrono = { version = "0.4", features = ["serde"] }
uuid = { version = "1", features = ["v4"] }
serde = { version = "1", features = ["derive"] }
serde_json = "1"
actix-web = "4"
actix-cors = "0.7"
env_logger = "0.11"
log = "0.4"
parking_lot = "0.12"
rayon = "1"
walkdir = "2"
anyhow = "1"
pulldown-cmark = "0.9"

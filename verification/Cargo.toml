[package]
name = "datastore"
version = "0.1.0"
edition = "2021"
publish = false

[dependencies]
hex = "0.4"
serde = { version = "1", features = ["derive"] }
serde_json = "1"
toml = "0.5"
url = "2"
walkdir = "2"

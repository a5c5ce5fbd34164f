[package]
name = "studio_datastore"
version = "0.1.0"
edition = "2021"
publish = false

[dependencies]
dirs = "=7.0.0"
hostname = "*"
serde = { version = "=1.0.229", features = ["derive"] }

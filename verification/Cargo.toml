[package]
name = "bnggen"
version = "0.1.0"
edition = "2021"
publish = false

[dependencies]
image = "0.24"
zip = "0.6"
walkdir = "2"
serde = { version = "1", features = ["derive"] }
serde_json = "1"
reqwest = { version = "0.11", default-features = false, features = ["blocking", "json"] }

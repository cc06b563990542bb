[package]
name = "llama_tray"
version = "0.1.0"
edition = "2021"
publish = false

[dependencies]
serde = { version = "1", features = ["derive"] }
serde_json = "1"
uuid = { version = "1", features = ["v4"] }
walkdir = "2"
reqwest = { version = "0.12", default-features = false, features = ["blocking"] }

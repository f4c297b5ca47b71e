[package]
name = "squire_lib"
version = "0.1.0"
edition = "2021"
publish = false

[dependencies]
uuid = { version = "1", features = ["v4"] }
mtgjson = "*"
serde = { version = "1", features = ["derive"] }
serde_json = "1"
dashmap = "5"
once_cell = "1"
rocket = "0.5"

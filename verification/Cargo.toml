[package]
name = "dynquery"
version = "0.1.0"
edition = "2021"
publish = false

[dependencies]
serde = { version = "*", features = ["derive"] }
serde_json = "*"
chrono = "*"
oracle = { version = "0.5", features = ["chrono"] }

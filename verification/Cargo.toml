[package]
name = "adof_core"
version = "0.1.0"
edition = "2021"
publish = false

[dependencies]
serde = { version = "*", features = ["derive"] }
serde_json = "*"
git2 = { version = "*", default-features = false }
chrono = "*"

[package]
name = "mdiff_core"
version = "0.1.0"
edition = "2021"
publish = false

[dependencies]
anyhow = "*"
chrono = "*"
git2 = { version = "*", default-features = false }
serde = { version = "*", features = ["derive"] }
serde_json = "*"

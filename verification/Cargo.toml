[package]
name = "tilemap_core"
version = "0.1.0"
edition = "2021"
publish = false

[dependencies]
uuid = { version = "1", features = ["v4"] }
ron = "0.8"
serde = { version = "1", features = ["derive"] }
anyhow = "1"

[package]
name = "morflash"
version = "0.1.0"
edition = "2021"
publish = false

[dependencies]
serde_json = { version = "1", features = ["preserve_order"] }
csv = "1"
serde = { version = "1", features = ["derive"] }
chrono = "0.4"
zip = { version = "*", default-features = false, features = ["deflate"] }
rusqlite = { version = "*", features = ["bundled"] }
rand = "*"
anyhow = "1"

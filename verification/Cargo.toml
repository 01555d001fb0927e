[package]
name = "ml2_mods"
version = "0.1.0"
edition = "2021"
publish = false

[dependencies]
zip = "*"
crc32fast = "*"
serde = { version = "*", features = ["derive"] }
serde_json = "*"

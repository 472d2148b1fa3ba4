[package]
name = "extract_map"
version = "0.1.0"
edition = "2021"
publish = false

[dependencies]
hashbrown = "0.15"
gat-lending-iterator = "0.1"
serde = "1"

[dev-dependencies]
serde_json = "1"

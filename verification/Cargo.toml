[package]
name = "ferrite_carver"
version = "0.1.0"
edition = "2021"
publish = false

[dependencies]
crc32fast = "1"
memchr = "2"
rayon = "1"
serde = { version = "1", features = ["derive"] }
thiserror = "1"
toml = "0.8"

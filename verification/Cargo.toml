[package]
name = "ferris_pad"
version = "0.1.0"
edition = "2021"
publish = false

[dependencies]
semver = "=1.0.28"
regex-lite = "=0.1.9"
serde = { version = "=1.0.229", features = ["derive"] }
reqwest = { version = "=0.12.28", default-features = false, features = ["blocking", "json"] }
memmap2 = "=0.9.12"

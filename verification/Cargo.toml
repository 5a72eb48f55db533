[package]
name = "course_market"
version = "0.1.0"
edition = "2021"
publish = false

[dependencies]
near-sdk = { version = "=5.29.1", features = ["unit-testing"] }
serde = { version = "=1.0.229", features = ["derive"] }

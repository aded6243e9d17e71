[package]
name = "presenze"
version = "0.1.0"
edition = "2021"
publish = false

[dependencies]
serde = { version = "1", features = ["derive"] }
chrono = "0.4"
quick-xml = { version = "*", features = ["serialize"] }

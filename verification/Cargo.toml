[package]
name = "drawio_parser"
version = "0.1.0"
edition = "2021"
publish = false

[dependencies]
quick-xml = "0.37"
serde = { version = "1", features = ["derive"] }

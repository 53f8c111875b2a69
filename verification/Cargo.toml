[package]
name = "csv_json_converter"
version = "0.1.0"
edition = "2021"
publish = false

[dependencies]
clap = { version = "4", features = ["derive"] }
csv = "1"
serde_json = { version = "1", features = ["preserve_order"] }

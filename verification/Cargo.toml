[package]
name = "parse_js"
version = "0.1.0"
edition = "2021"
publish = false

[dependencies]
convert_case = "*"
regex = "1"
serde = { version = "1", features = ["derive"] }
serde_json = "1"

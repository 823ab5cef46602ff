[package]
name = "carcosa"
version = "0.1.0"
edition = "2021"
publish = false

[dependencies]
uuid = { version = "*", features = ["v4"] }
convert_case = "*"
serde = { version = "*", features = ["derive"] }
serde_json = "*"

[package]
name = "runalyzer"
version = "0.1.0"
edition = "2021"
publish = false

[dependencies]
geo = "*"
strsim = "*"
serde = { version = "*", features = ["derive"] }
serde_json = "*"
csv = "*"
chrono = { version = "*", features = ["serde"] }

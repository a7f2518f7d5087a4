[package]
name = "fox"
version = "0.1.0"
edition = "2021"
publish = false

[dependencies]
chrono = "*"
colored = "*"
serde = { version = "*", features = ["derive"] }
ureq = "*"

[package]
name = "atletiek_nu_api"
version = "0.1.0"
edition = "2021"
publish = false

[dependencies]
scraper = "*"
regex = "*"
chrono = { version = "*", features = ["serde"] }
serde = { version = "1", features = ["derive"] }

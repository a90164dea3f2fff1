[package]
name = "pso2_scraper"
version = "0.1.0"
edition = "2021"
publish = false

[dependencies]
chrono = "0.4"
chrono-tz = "*"
env_logger = "*"
log = "0.4"
regex = "1"
reqwest = { version = "*", features = ["blocking"] }
scraper = "*"
serenity = "*"
tokio = { version = "1", features = ["rt"] }

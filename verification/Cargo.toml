[package]
name = "newsminal"
version = "0.1.0"
edition = "2021"
publish = false

[dependencies]
chrono = "0.4"
crossterm = "*"
log = "0.4"
log4rs = "*"
reqwest = { version = "0.12", default-features = false, features = ["blocking"] }
rss = "*"
scraper = "*"
serde = { version = "1", features = ["derive"] }
serde_json = "1"

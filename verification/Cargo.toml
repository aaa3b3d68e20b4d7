[package]
name = "dealfeed"
version = "0.1.0"
edition = "2021"

[dependencies]
scraper = "*"
actix-web = "*"
reqwest = { version = "*", default-features = false, features = ["rustls-tls"] }
rss = "*"
serde = { version = "*", features = ["derive"] }
dotenv = "*"
env_logger = "*"

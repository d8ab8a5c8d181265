[package]
name = "ao3_scraper"
version = "0.1.0"
edition = "2021"
publish = false

[dependencies]
clap = { version = "=4.6.7", features = ["derive"] }
ego-tree = "=0.11.1"
regex = "=1.13.1"
reqwest = { version = "=0.12.28", default-features = false, features = ["blocking", "cookies", "rustls-tls"] }
sanitize-filename = "=0.6.0"
scraper = "=0.29.0"

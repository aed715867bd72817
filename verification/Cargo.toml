[package]
name = "fast_xbrl_parser"
version = "0.1.0"
edition = "2021"
publish = false

[dependencies]
regex = "1"
roxmltree = "0.14"
scraper = "0.12"
serde = { version = "1", features = ["derive"] }
serde_json = "1"
csv = "1"
clap = { version = "3", features = ["derive"] }
reqwest = { version = "0.11", default-features = false, features = ["blocking", "rustls-tls"] }

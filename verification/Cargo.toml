[package]
name = "swiss_army_suite"
version = "1.0.0"
edition = "2021"
publish = false

[dependencies]
anyhow = "1"
colored = "2"
reqwest = { version = "0.12", default-features = false, features = ["json", "rustls-tls"] }
scraper = "*"
serde = { version = "1", features = ["derive"] }
serde_json = "1"
tokio = { version = "1", features = ["macros", "rt-multi-thread", "sync", "time"] }
url = "2"
urlencoding = "2"

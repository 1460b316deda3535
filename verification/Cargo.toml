[package]
name = "web_crawler"
version = "0.1.0"
edition = "2021"
publish = false

[dependencies]
blake3 = "*"
clap = "*"
env_logger = "*"
hex = "*"
log = "*"
reqwest = { version = "*", default-features = false }
rusqlite = { version = "*", features = ["bundled"] }
scraper = "*"
tokio = { version = "*", features = ["macros", "rt-multi-thread"] }
url = "*"

[package]
name = "awful_text_news"
version = "0.1.0"
edition = "2021"
publish = false

[dependencies]
rand = "*"
serde_json = "*"
url = "*"
chrono = "*"
clap = { version = "*", features = ["derive", "env"] }
serde = { version = "*", features = ["derive"] }
tokio = { version = "*", features = ["rt-multi-thread", "macros", "fs", "time"] }
reqwest = { version = "*", default-features = false }
scraper = "*"
futures = "*"
tracing = "*"
tracing-subscriber = { version = "*", features = ["env-filter"] }

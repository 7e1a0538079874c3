[package]
name = "arxiv_bot"
version = "0.1.0"
edition = "2021"
publish = false

[dependencies]
chrono = "0.4"
reqwest = { version = "0.12", default-features = false, features = ["blocking", "json", "multipart"] }
rss = "2"
select = "0.6"
serde = { version = "1", features = ["derive"] }
serde_json = "1"
toml = "0.8"

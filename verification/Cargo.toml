[package]
name = "recipe_table"
version = "0.1.0"
edition = "2021"
publish = false

[dependencies]
poise = "0.5"
tokio = { version = "1", features = ["macros", "rt-multi-thread"] }
serde_json = "1"
reqwest = { version = "0.11", default-features = false, features = ["blocking", "rustls-tls"] }
scraper = "0.17"

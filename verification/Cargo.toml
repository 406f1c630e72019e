[package]
name = "animepahe_dl"
version = "0.1.0"
edition = "2021"
publish = false

[dependencies]
radix_fmt = "1"
regex = "1"
scraper = "*"
urlencoding = "2"
serde = { version = "1", features = ["derive"] }
serde_json = "1"
reqwest = { version = "0.12", default-features = false, features = ["cookies", "rustls-tls"] }
tokio = { version = "1", features = ["macros", "rt-multi-thread"] }

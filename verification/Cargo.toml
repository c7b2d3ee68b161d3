[package]
name = "forum_scraper"
version = "0.1.0"
edition = "2021"
publish = false

[dependencies]
regex = "1"
url = "2"
serde = { version = "1", features = ["derive"] }
serde_json = "1"
sha256 = "*"
urlencoding = "2"
encoding = "0.2"
rayon = "1"
tokio = { version = "1", features = ["rt-multi-thread", "macros"] }
sqlx = { version = "*", default-features = false, features = ["sqlite", "runtime-tokio"] }
reqwest = { version = "*", default-features = false, features = ["blocking"] }

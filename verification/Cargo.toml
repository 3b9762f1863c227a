[package]
name = "khata"
version = "0.1.0"
edition = "2021"
publish = false

[dependencies]
chrono = "0.4"
regex = "1"
pulldown-cmark = { version = "0.9", default-features = false }
sha2 = "0.10"
hex = "0.4"
rss = { version = "2", default-features = false }
serde = { version = "1", features = ["derive"] }
serde_json = "1"
tera = "1"
clap = "2"

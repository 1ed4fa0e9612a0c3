[package]
name = "classy"
version = "0.1.0"
edition = "2021"
publish = false

[dependencies]
rand = "=0.8.8"
serenity = "=0.11.7"
tokio = { version = "=1.53.2", features = ["macros", "rt-multi-thread", "fs"] }
reqwest = { version = "=0.11.27", default-features = false, features = ["rustls-tls"] }
scraper = "=0.17.1"
serde = { version = "=1.0.229", features = ["derive"] }
serde_json = "=1.0.151"
thiserror = "=1.0.69"
anyhow = "=1.0.104"
regex = "=1.13.1"
tantivy = "=0.22.1"

[package]
name = "booth2rss"
version = "0.1.0"
edition = "2021"
publish = false

[dependencies]
url = "2"
substring = "1"
rss = "2"
serde = { version = "1", features = ["derive"] }
serde_json = "1"
reqwest = { version = "0.12", default-features = false, features = ["json", "rustls-tls"] }
tokio = { version = "1", features = ["macros", "rt-multi-thread"] }
actix-web = { version = "4", default-features = false, features = ["macros"] }
moka = { version = "0.12", features = ["future"] }
log = "0.4"

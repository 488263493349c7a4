[package]
name = "media_tagger"
version = "0.1.0"
edition = "2021"
publish = false

[dependencies]
shell-words = "1"
shellexpand = "*"
zip = { version = "*", default-features = false, features = ["deflate"] }
regex = "1"
urlencoding = "2"
actix-cors = "0.7"
actix-web = { version = "4", default-features = false, features = ["macros"] }
anyhow = "1"
chrono = { version = "0.4", features = ["serde"] }
dirs = "*"
futures-util = "0.3"
http = "0.2"
once_cell = "1"
rayon = "1"
reqwest = { version = "0.12", default-features = false, features = ["json", "stream", "rustls-tls"] }
serde = { version = "1", features = ["derive"] }
serde_json = "1"
tokio = { version = "1", features = ["full"] }

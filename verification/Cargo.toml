[package]
name = "ruyi_search"
version = "0.1.0"
edition = "2021"
publish = false

[dependencies]
sha2 = "0.10"
hex = "0.4"
pdf-extract = "*"
docx-rust = "*"
serde = { version = "1", features = ["derive"] }
tokio = { version = "1", features = ["full"] }
meilisearch-sdk = "*"
walkdir = "2"
tracing = "0.1"
tracing-subscriber = { version = "0.3", features = ["env-filter"] }
dotenvy = "*"

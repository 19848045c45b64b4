[package]
name = "subsearch"
version = "0.1.0"
edition = "2021"
publish = false

[dependencies]
tantivy = "=0.26.2"
lindera = "=5.3.0"
lindera-tantivy = "=5.0.1"
serde = { version = "=1.0.229", features = ["derive"] }
serde_json = "=1.0.151"
url-escape = "*"

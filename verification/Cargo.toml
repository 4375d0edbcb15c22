[package]
name = "tome"
version = "0.1.0"
edition = "2021"
publish = false

[dependencies]
url = "2"
quick-xml = "0.37"
sha1 = "0.10"
hex = "0.4"
bzip2 = "0.4"
flate2 = "1"
tokio = { version = "1", features = ["time", "rt", "sync", "macros"] }
reqwest = { version = "0.12", default-features = false, features = ["rustls-tls"] }
async-trait = "0.1"
serde = { version = "1", features = ["derive"] }
serde_json = "1"
toml = "0.8"
rusqlite = { version = "0.32", features = ["bundled"] }
tantivy = "0.22"
dirs = "5"
fs4 = "*"
thiserror = "2"

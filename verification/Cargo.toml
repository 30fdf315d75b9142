[package]
name = "crypt_core"
version = "0.1.0"
edition = "2021"
publish = false

[dependencies]
ansi_term = "0.12"
anyhow = "1"
async-recursion = "1"
blake2 = "0.10"
chacha20poly1305 = "0.10"
chrono = "0.4"
clap = { version = "4", features = ["derive"] }
clap-markdown = "*"
csv = "1"
digest = "0.10"
dunce = "1"
lazy_static = "1"
oauth2 = "4"
rand = "0.8"
reqwest = { version = "0.11", default-features = false, features = ["json", "rustls-tls"] }
rusqlite = { version = "*", features = ["bundled"] }
serde = { version = "1", features = ["derive"] }
serde_json = "1"
thiserror = "1"
tokio = { version = "1", features = ["rt-multi-thread", "fs", "io-util"] }
toml = "0.8"
url = "2"
uuid = "1"
walkdir = "2"
zstd = "0.13"

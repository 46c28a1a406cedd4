[package]
name = "longctx"
version = "0.2.0"
edition = "2021"
publish = false

[dependencies]
anyhow = "1"
clap = { version = "4", features = ["derive"] }
rand = "0.8"
regex = "1"
reqwest = { version = "0.12", default-features = false, features = ["json", "rustls-tls"] }
serde = { version = "1", features = ["derive"] }
serde_json = "1"
sha2 = "0.10"
tiktoken-rs = "*"
tokio = { version = "1", features = ["rt-multi-thread", "macros", "time"] }
toml = "0.8"
walkdir = "2"

[dev-dependencies]
tempfile = "3"

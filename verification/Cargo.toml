[package]
name = "aura_sync"
version = "0.1.0"
edition = "2021"
publish = false

[dependencies]
sha2 = "0.10"
hex = "0.4"
xxhash-rust = { version = "0.8", features = ["xxh3"] }
chrono = "0.4"
walkdir = "2"
notify = "*"
reqwest = { version = "0.12", default-features = false, features = ["blocking", "rustls-tls"] }

[package]
name = "repo_mirror"
version = "0.1.0"
edition = "2021"
publish = false

[dependencies]
anyhow = "1"
flate2 = "1"
futures-util = "0.3"
indicatif = "0.17"
reqwest = { version = "0.12", default-features = false, features = ["stream"] }
sha256 = { version = "1", default-features = false }
tokio = { version = "1", features = ["rt-multi-thread", "macros", "sync"] }

[package]
name = "prune"
version = "0.1.0"
edition = "2021"
publish = false

[dependencies]
anyhow = "1"
axum = "0.8"
clap = { version = "4", features = ["derive"] }
serde = { version = "1", features = ["derive"] }
serde_json = "1"
tokio = { version = "1", features = ["macros", "rt-multi-thread", "net", "fs"] }
toml = "0.9"
walkdir = "2"
zip = { version = "*", default-features = false, features = ["deflate"] }

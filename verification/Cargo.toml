[package]
name = "tinypngx"
version = "0.1.0"
edition = "2021"
publish = false

[dependencies]
anyhow = "1"
better-panic = "0.3"
chrono = "0.4"
clap = { version = "4", features = ["derive"] }
comfy-table = "7"
console = "0.15"
dialoguer = "0.11"
dirs = "5"
futures = "0.3"
indicatif = "0.17"
lru = "0.12"
md5 = "0.7"
once_cell = "1"
reqwest = { version = "0.12", default-features = false, features = ["json", "rustls-tls"] }
serde = { version = "1", features = ["derive"] }
tokio = { version = "1", features = ["full"] }
toml = "0.8"
tracing = "0.1"

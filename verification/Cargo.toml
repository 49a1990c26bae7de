[package]
name = "dots_wallet"
version = "0.1.0"
edition = "2021"
publish = false

[dependencies]
lru = { version = "0.7", default-features = false }
mongodb = "2"
serde = { version = "1", features = ["derive"] }
tokio = { version = "1", features = ["full"] }
warp = "0.3"

[dev-dependencies]
serde_json = "1"

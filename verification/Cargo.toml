[package]
name = "edge_cdn_store"
version = "0.1.0"
edition = "2021"
publish = false

[dependencies]
async-trait = "0.1"
bytes = "1"
dashmap = "6"
io-uring = "0.7"
once_cell = "1"
pingora = { version = "0.6", features = ["cache"] }
prometheus = "0.13"
serde = { version = "1", features = ["derive"] }
serde_yaml = "0.9"
tokio = { version = "1", features = ["full"] }

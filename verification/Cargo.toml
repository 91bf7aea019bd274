[package]
name = "broadcast_hub"
version = "0.1.0"
edition = "2021"
publish = false

[dependencies]
serde_json = "1"
rand = { version = "0.8", features = ["small_rng"] }
xml-rs = "0.8"
serde = { version = "1", features = ["derive"] }
tokio = { version = "1", features = ["rt-multi-thread", "macros", "sync"] }
axum = { version = "0.7", features = ["ws"] }
futures = "0.3"

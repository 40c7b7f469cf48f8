[package]
name = "clicker"
version = "0.1.0"
edition = "2021"
publish = false

[dependencies]
blake3 = "1.8.7"
bincode = "1.3.3"
serde = { version = "1", features = ["derive"] }
tracing = "0.1"
derive_more = { version = "2", features = ["deref"] }
bevy = { version = "0.17", default-features = false }

[package]
name = "bitforge"
version = "0.1.0"
edition = "2021"
publish = false

[dependencies]
anyhow = "1"
log = "0.4"
env_logger = "0.11"
serde = { version = "1", features = ["derive"] }
serde_json = "1"
toml = "0.8"
git2 = "0.20"
rusqlite = { version = "*", features = ["bundled"] }
tokio = { version = "1", features = ["full"] }
hyper = { version = "1", features = ["server", "http1", "http2"] }
hyper-util = { version = "0.1", features = ["tokio", "server", "server-auto", "http1", "http2"] }
http-body-util = "0.1"
bytes = "1"
futures-util = "0.3"
tokio-stream = { version = "0.1", features = ["sync"] }
rust-embed = "8"
xml-rs = "0.8"

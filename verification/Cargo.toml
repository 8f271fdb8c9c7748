[package]
name = "note"
version = "0.1.0"
edition = "2021"
publish = false

[dependencies]
anyhow = "1"
axum = { version = "0.8", features = ["multipart"] }
base64 = "0.22"
deadpool-sqlite = "0.9"
dom_smoothie = "*"
eventsource-stream = "*"
futures = "0.3"
htmd = "*"
mp3-duration = "*"
reqwest = { version = "0.12", default-features = false, features = ["json", "stream", "rustls-tls"] }
rmcp = { version = "*", features = ["server", "macros", "transport-io"] }
rss = { version = "2", features = ["builders"] }
rusqlite = { version = "0.32", features = ["bundled"] }
rusqlite_migration = "1.3"
serde = { version = "1", features = ["derive"] }
serde_json = "1"
sqlite-vec = "*"
subtle = "2"
tempfile = "3"
tokio = { version = "1", features = ["full"] }
tokio-util = { version = "0.7", features = ["io"] }
tower-http = { version = "0.6", features = ["compression-gzip", "cors", "fs"] }
tracing = "0.1"
tracing-subscriber = { version = "0.3", features = ["env-filter"] }
yt-transcript-rs = "*"
zip = { version = "*", default-features = false, features = ["deflate"] }

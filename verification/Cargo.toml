[package]
name = "imgproxy"
version = "0.1.0"
edition = "2021"
publish = false

[dependencies]
image = "*"
webp = "*"
ravif = { version = "*", default-features = false }
rgb = "*"
sha2 = "*"
hex = "*"
percent-encoding = "*"
nostr-sdk = "*"
axum = "*"
tokio = { version = "*", features = ["full"] }
reqwest = { version = "*", default-features = false }
bytes = "*"
http = "*"
serde = { version = "*", features = ["derive"] }
thiserror = "*"
tempfile = "*"
walkdir = "*"
tracing = "*"
tracing-subscriber = { version = "*", features = ["env-filter"] }
tower-http = { version = "*", features = ["cors"] }

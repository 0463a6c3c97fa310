[package]
name = "borehole"
version = "0.1.0"
edition = "2021"
publish = false

[dependencies]
anyhow = "1"
axum = "0.7"
chrono = "0.4"
clap = { version = "4", features = ["derive"] }
hostname = "0.4"
include_dir = "0.7"
jsonwebtoken = "9"
mime_guess = "2"
open = "5"
owo-colors = "4"
rand = "0.8"
rustls = "0.23"
rustls-pemfile = "2"
self-replace = "1"
semver = "1"
serde = { version = "1", features = ["derive"] }
serde_json = "1"
sha2 = "0.10"
tempfile = "3"
tokio = { version = "1", features = ["full"] }
tokio-rustls = "0.26"
tokio-stream = { version = "0.1", features = ["sync"] }
tower-http = { version = "0.5", features = ["cors"] }
tracing = "0.1"
tracing-subscriber = { version = "0.3", features = ["env-filter"] }
ureq = { version = "3", features = ["json"] }
uuid = { version = "1", features = ["v4"] }

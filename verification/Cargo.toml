[package]
name = "bowling"
version = "0.1.0"
edition = "2021"
publish = false

[dependencies]
rand = "=0.9.5"
uuid = { version = "=1.29.0", features = ["v4"] }
serde = { version = "=1.0.229", features = ["derive"] }
serde_json = "=1.0.154"
thiserror = "=2.0.21"
axum = { version = "=0.8.9", features = ["ws"] }
tokio = { version = "=1.54.1", features = ["full"] }
futures-util = "=0.3.34"
tracing = "=0.1.44"
tracing-subscriber = { version = "=0.3.23", features = ["env-filter"] }
rust-embed = { version = "=8.13.0", features = ["interpolate-folder-path"] }
mime_guess = "=2.0.5"

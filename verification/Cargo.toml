[package]
name = "morphit_robot"
version = "0.1.0"
edition = "2021"
publish = false

[dependencies]
axum = { version = "0.8", features = ["multipart", "ws"] }
clap = { version = "4", features = ["derive", "env"] }
mime_guess = "=2.0.5"
rand = "0.9"
rayon = "1"
roxmltree = "=0.21.2"
serde = { version = "1", features = ["derive"] }
serde_json = "=1.0.154"
thiserror = "2"
tokio = { version = "1", features = ["rt-multi-thread", "macros", "net", "sync", "time", "fs", "signal"] }
tracing = "0.1"
tracing-subscriber = { version = "0.3", features = ["env-filter"] }
uuid = { version = "=1.29.0", features = ["v4"] }
zip = { version = "8", default-features = false, features = ["deflate"] }

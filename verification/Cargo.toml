[package]
name = "hl_bootstrap"
version = "0.1.0"
edition = "2021"
publish = false

[dependencies]
uuid = { version = "*", features = ["v7"] }
axum = "*"
clap = { version = "*", features = ["derive", "env"] }
duration-string = "*"
exec = "*"
eyre = "*"
http = "*"
reqwest = { version = "*", default-features = false, features = ["json"] }
serde = { version = "*", features = ["derive"] }
serde_json = "*"
serde_with = "*"
tempfile = "*"
tokio = { version = "*", features = ["full"] }
tokio-util = { version = "*", features = ["io"] }
tracing = "*"
tracing-subscriber = { version = "*", features = ["env-filter"] }

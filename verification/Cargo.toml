[package]
name = "mdbook-lang"
version = "0.1.1"
edition = "2021"
publish = false

[dependencies]
regex = "1"
uuid = { version = "1", features = ["v4"] }
toml_edit = "0.22"
mdbook = { version = "0.4", default-features = false }
serde_json = "1"
axum = "0.7"
tokio = { version = "1", features = ["full"] }
tower-http = { version = "0.5", features = ["cors"] }
clap = "4"
log = "0.4"
env_logger = "0.11"
daemonize = "0.5"
signal-hook = "0.3"
chrono = "0.4"
windows-service = "0.7"

[package]
name = "anycode"
version = "0.1.0"
edition = "2021"
publish = false

[dependencies]
ropey = "1.6"
detect-lang = "*"
pathdiff = "0.2"
anyhow = "1"
serde = { version = "1", features = ["derive"] }
serde_json = "1"
toml = "*"
dirs = "*"
tokio = { version = "1", features = ["full"] }
tokio-util = "*"
axum = "*"
socketioxide = { version = "*", features = ["state"] }
tower = "*"
tower-http = { version = "*", features = ["cors", "fs"] }
tracing = "0.1"
tracing-subscriber = { version = "0.3", features = ["env-filter"] }
lsp-types = "*"
mime_guess = "2"
notify = "*"
portable-pty = "*"

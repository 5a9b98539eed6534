[package]
name = "live_reload"
version = "0.1.0"
edition = "2021"
publish = false

[dependencies]
base64 = "0.22"
globset = "0.4"
httparse = "1"
mime_guess = "2"
notify = "6"
percent-encoding = "2"
serde = { version = "1", features = ["derive"] }
serde_json = "1"
sha1 = "0.10"
tokio = { version = "1", features = ["full"] }
tower-lsp = "0.20"
zed_extension_api = "*"

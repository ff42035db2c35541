[package]
name = "vscode_portal"
version = "0.1.0"
edition = "2021"
publish = false

[dependencies]
serde_json = "*"
flate2 = "*"
reqwest = { version = "*", default-features = false, features = ["blocking", "json", "rustls-tls"] }
clap = { version = "*", features = ["derive"] }
env_logger = "*"
log = "*"
shellexpand = "*"
zip-extract = "*"
anyhow = "*"

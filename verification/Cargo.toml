[package]
name = "openproject"
version = "0.1.0"
edition = "2021"
publish = false

[dependencies]
anyhow = "1"
chrono = "0.4"
clap = { version = "4", features = ["derive"] }
dirs = "*"
keyring = "*"
regex = "1"
reqwest = { version = "0.12", default-features = false, features = ["blocking", "json", "rustls-tls"] }
rpassword = "*"
serde = { version = "1", features = ["derive"] }
serde_json = "1"
url = "2"

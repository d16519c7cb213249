[package]
name = "wayback_impersonator"
version = "0.1.0"
edition = "2021"
publish = false

[dependencies]
url = "2"
flate2 = "1"
brotli = "*"
serde = { version = "1", features = ["derive"] }
serde_json = "1"
anyhow = "1"
clap = { version = "4", features = ["derive"] }
impersonate-rs = "*"

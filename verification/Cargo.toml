[package]
name = "snphost"
version = "0.1.0"
edition = "2021"
publish = false

[dependencies]
anyhow = "1"
clap = { version = "4", features = ["derive"] }
curl = "0.4"
env_logger = "*"
sev = { version = "*", features = ["openssl"] }

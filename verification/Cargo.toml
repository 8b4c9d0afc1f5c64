[package]
name = "rustsible"
version = "0.1.0"
edition = "2021"
publish = false

[dependencies]
anyhow = "1"
chrono = "0.4"
clap = "4"
colored = "*"
env_logger = "*"
log = "0.4"
rand = "0.9"
regex = "1"
serde = { version = "1", features = ["derive"] }
serde_json = "1"
serde_yaml = "0.9"
sha-crypt = "0.5"
ssh2 = "0.9"
tera = "1"
uuid = { version = "1", features = ["v4"] }

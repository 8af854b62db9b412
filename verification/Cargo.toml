[package]
name = "podium"
version = "0.12.0"
edition = "2021"
publish = false

[dependencies]
anyhow = "=1.0.104"
chrono = "=0.4.45"
dirs = "=7.0.0"
getrandom = "=0.4.3"
keyring = "=3.6.3"
parking_lot = "=0.12.5"
reqwest = { version = "=0.12.28", default-features = false, features = ["rustls-tls"] }
rfd = "=0.17.2"
serde = { version = "=1.0.229", features = ["derive"] }
serde_json = "=1.0.154"
toml = "=0.8.23"
uuid = { version = "=1.29.0", features = ["v4"] }

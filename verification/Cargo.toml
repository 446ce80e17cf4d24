[package]
name = "ya_relay_client"
version = "0.6.0"
edition = "2021"
publish = false

[dependencies]
aes-gcm-siv = "0.11"
anyhow = "1"
async-trait = "0.1"
backoff = { version = "0.4", features = ["tokio"] }
chrono = "0.4"
futures = "0.3"
hex = "0.4"
humantime = "2"
log = "0.4"
metrics = "0.21"
num_cpus = "1"
parking_lot = "0.12"
rand = "0.8"
thiserror = "1"
tokio = { version = "1", features = ["rt", "sync", "time", "macros", "net"] }
url = "2"

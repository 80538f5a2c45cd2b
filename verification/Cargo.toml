[package]
name = "solana-block-cacher"
version = "1.0.8"
edition = "2021"
publish = false

[dependencies]
rand = "=0.8.8"
url = "2"
log = "=0.4.35"
fern = "=0.6.2"
colored = "=2.2.0"
chrono = "=0.4.45"
indicatif = "=0.17.11"
serde_json = "=1.0.154"
clap = { version = "=4.6.7", features = ["derive"] }
tokio = { version = "=1.54.1", features = ["time"] }

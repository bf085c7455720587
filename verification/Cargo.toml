[package]
name = "chord"
version = "0.1.0"
edition = "2021"
publish = false

[dependencies]
blake3 = { version = "=1.8.7", features = ["pure"] }
rust-ini = "=0.21.3"
log = "=0.4.34"
clap = { version = "=4.6.7", features = ["derive"] }
tokio = { version = "=1.54.1", features = ["full"] }
rayon = "=1.12.0"
simple_logger = "=5.2.0"
serde = { version = "1", features = ["derive"] }
serde_json = "1"

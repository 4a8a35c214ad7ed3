[package]
name = "ferrite"
version = "0.1.0"
edition = "2021"
publish = false

[dependencies]
anyhow = "=1.0.104"
blake3 = "=1.8.7"
clap = { version = "=4.6.7", features = ["derive"] }
colored = "=3.1.1"
config = { version = "=0.15.27", default-features = false, features = ["yaml"] }
dotenvy = "=0.15.7"
ferinth = "=2.11.1"
furse = "=1.6.1"
indicatif = "=0.18.6"
inquire = "=0.9.4"
libium = "=1.30.0"
octocrab = { version = "=0.39.0", default-features = false, features = ["rustls"] }
parking_lot = "=0.12.5"
reqwest = { version = "=0.12.28", features = ["json"] }
serde = { version = "=1.0.229", features = ["derive"] }
serde-xml-rs = "=0.8.2"
serde_yml = "=0.0.13"
tokio = { version = "=1.54.1", features = ["rt-multi-thread", "macros"] }

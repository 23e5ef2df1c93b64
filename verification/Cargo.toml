[package]
name = "server_common"
version = "0.1.0"
edition = "2021"
publish = false

[dependencies]
anyhow = "1"
base64 = "0.13"
clap = "2"
log = "0.4"
reqwest = { version = "0.11", default-features = false, features = ["json", "rustls-tls"] }
rust-ini = "0.18"
serde = { version = "1", features = ["derive"] }
serde_json = "1"
sodiumoxide = "0.2"
tempfile = "3"
tokio = { version = "1", features = ["net", "rt", "rt-multi-thread", "macros", "signal", "time"] }
uuid = { version = "1", features = ["v4"] }

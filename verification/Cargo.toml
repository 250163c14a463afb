[package]
name = "culverin"
version = "0.1.0"
edition = "2021"
publish = false

[dependencies]
url = "*"
humantime = "*"
anyhow = "*"
num_cpus = "*"
serde = { version = "*", features = ["derive"] }
serde_json = "*"
tokio = { version = "*", features = ["rt-multi-thread", "macros", "time", "sync"] }
reqwest = { version = "*", default-features = false, features = ["http2", "rustls-tls"] }

[package]
name = "airp_core"
version = "0.1.0"
edition = "2021"
publish = false

[dependencies]
aho-corasick = "=1.1.5"
serde = { version = "=1.0.229", features = ["derive"] }
serde_json = "=1.0.154"
clap = { version = "=4.6.7", features = ["derive"] }
chrono = "=0.4.45"
uuid = { version = "=1.29.0", features = ["v4"] }

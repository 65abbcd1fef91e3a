[package]
name = "localfy"
version = "0.1.0"
edition = "2021"
publish = false

[dependencies]
rand = "=0.8.8"
serde = { version = "*", features = ["derive"] }
serde_json = "*"
tokio = { version = "*", features = ["rt-multi-thread", "macros", "time", "fs", "io-util"] }
reqwest = { version = "*", default-features = false, features = ["rustls-tls"] }
futures-util = "*"

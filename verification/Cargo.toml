[package]
name = "sozune_redirectionio"
version = "0.1.0"
edition = "2021"
publish = false

[dependencies]
redirectionio = "=3.3.0"
serde = { version = "=1.0.229", features = ["derive"] }
serde_json = "=1.0.154"
getrandom = "=0.4.3"
reqwest = { version = "=0.12.28", default-features = false, features = ["blocking", "rustls-tls"] }

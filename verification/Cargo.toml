[package]
name = "token_list_module"
version = "0.1.0"
edition = "2021"
publish = false

[dependencies]
reqwest = { version = "0.12", default-features = false, features = ["blocking", "rustls-tls", "socks"] }
serde = { version = "1", features = ["derive"] }
serde_json = "1"

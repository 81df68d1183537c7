[package]
name = "azure_mcp"
version = "0.1.0"
edition = "2021"
publish = false

[dependencies]
reqwest = { version = "0.12", default-features = false, features = ["rustls-tls"] }
serde_json = "1"
tokio = { version = "1", features = ["process", "time", "macros", "rt-multi-thread", "io-std", "io-util"] }

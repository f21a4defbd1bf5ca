[package]
name = "cmirror"
version = "0.1.0"
edition = "2021"
publish = false

[dependencies]
toml = "0.8"
serde_json = "1"
tokio = { version = "1", features = ["full"] }
reqwest = { version = "0.12", default-features = false, features = ["rustls-tls"] }
futures = "0.3"
clap = { version = "4", features = ["derive"] }
indicatif = "0.17"
anyhow = "1"
directories = "5"

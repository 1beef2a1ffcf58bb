[package]
name = "codex-manager-core"
version = "1.0.25"
edition = "2021"
publish = false

[dependencies]
anyhow = "1"
directories = "5"
reqwest = { version = "0.12", default-features = false, features = ["blocking", "json", "rustls-tls"] }
serde = { version = "1", features = ["derive"] }
serde_json = "1"
toml_edit = "0.22"
tungstenite = "0.24"
uuid = { version = "1", features = ["v4"] }

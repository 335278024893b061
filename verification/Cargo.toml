[package]
name = "thermal_berry"
version = "0.1.0"
edition = "2021"
publish = false

[dependencies]
serde = { version = "1", features = ["derive"] }
serde_json = "1"
rusqlite = { version = "*", features = ["bundled"] }
dirs = "*"
thiserror = "*"
reqwest = { version = "0.12", default-features = false, features = ["json", "rustls-tls"] }

[package]
name = "simplesync"
version = "0.1.0"
edition = "2021"
publish = false

[dependencies]
base64 = "0.22"
roxmltree = "0.20"
reqwest = { version = "0.12", default-features = false, features = ["blocking", "json", "rustls-tls"] }
rusqlite = { version = "0.32", features = ["bundled"] }
chrono = "0.4"
walkdir = "2"
serde = { version = "1", features = ["derive"] }
gtk4 = { version = "0.9", features = ["v4_10"] }
libadwaita = { version = "0.7", features = ["v1_5"] }
gettext-rs = "0.7"

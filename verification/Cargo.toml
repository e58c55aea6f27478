[package]
name = "kota"
version = "0.1.0"
edition = "2021"
publish = false

[dependencies]
anyhow = "1"
chrono = { version = "0.4", features = ["serde"] }
clap = { version = "4", features = ["derive"] }
crossterm = "0.28"
futures-util = "0.3"
libsql = { version = "*", default-features = false, features = ["core"] }
macpow = "*"
ratatui = "0.29"
regex = "1"
regex-syntax = "0.8"
reqwest = { version = "0.12", default-features = false, features = ["json", "stream", "rustls-tls"] }
serde = { version = "1", features = ["derive"] }
serde_json = "1"
sysinfo = "0.33"
tokio = { version = "1", features = ["full"] }
uuid = { version = "1", features = ["v4"] }

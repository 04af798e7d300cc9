[package]
name = "fan_bd"
version = "0.1.0"
edition = "2021"
publish = false

[dependencies]
strsim = "=0.11.1"
unicode-normalization = "=0.1.26"
tokio = { version = "1", default-features = false, features = ["rt-multi-thread", "macros", "sync", "time", "signal"] }
reqwest = { version = "0.12", default-features = false, features = ["json", "multipart", "stream"] }
serde = { version = "1", features = ["derive"] }
serde_json = "1"
anyhow = "1"
async-trait = "0.1"
thiserror = "2"
bytes = "1"
futures-util = { version = "0.3", default-features = false }
crossterm = { version = "0.29", default-features = false }
chrono = { version = "0.4", default-features = false, features = ["clock"] }

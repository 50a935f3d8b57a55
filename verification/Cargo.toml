[package]
name = "trivianetdmr"
version = "0.1.0"
edition = "2021"
publish = false

[dependencies]
roxmltree = "0.20"
ratatui = "0.29"
crossterm = "0.28"
tokio = { version = "1", features = ["macros", "rt-multi-thread", "sync", "time"] }
reqwest = { version = "0.12", default-features = false, features = ["rustls-tls"] }
serde = { version = "1", features = ["derive"] }
serde_json = "1"

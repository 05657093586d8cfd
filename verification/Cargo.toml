[package]
name = "twt_werewolf_master_ng"
version = "0.1.0"
edition = "2021"
publish = false

[dependencies]
rand = "0.8"
serde_json = "1"
inquire = "0.7"
chrono = "0.4"
crossterm = "0.28"
indicatif = "0.17"
reqwest = { version = "0.12", default-features = false, features = ["rustls-tls"] }
tokio = { version = "1", features = ["rt-multi-thread"] }
colored = "2"

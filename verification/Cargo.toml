[package]
name = "cdu"
version = "0.1.0"
edition = "2021"
publish = false

[dependencies]
serde_json = "*"
chrono = "*"
anyhow = "*"
clap = { version = "*", features = ["cargo", "env"] }
dotenvy = "*"
reqwest = { version = "*", default-features = false, features = ["blocking"] }
tracing = "*"
tracing-subscriber = { version = "*", features = ["env-filter"] }

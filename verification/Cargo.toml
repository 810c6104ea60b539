[package]
name = "benchkit"
version = "0.1.0"
edition = "2021"
publish = false

[dependencies]
charts = "*"
chrono = "0.4"
rand = "0.8"
reqwest = { version = "*", default-features = false }
serde = { version = "1", features = ["derive"] }
sha2 = "0.10"
tokio = { version = "1", features = ["macros", "rt-multi-thread", "fs", "io-util"] }
toml = "*"

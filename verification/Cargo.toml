[package]
name = "kyotod"
version = "0.1.0"
edition = "2021"
publish = false

[dependencies]
anyhow = "*"
bdk_kyoto = "*"
bdk_wallet = { version = "*", features = ["rusqlite"] }
serde = { version = "*", features = ["derive"] }
tokio = { version = "*", features = ["rt-multi-thread", "macros", "sync"] }
toml = "*"

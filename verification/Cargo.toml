[package]
name = "mbongo_core"
version = "0.1.0"
edition = "2021"
publish = false

[dependencies]
blake3 = "*"
ed25519-dalek = "*"
anyhow = "*"
thiserror = "*"
serde = { version = "*", features = ["derive"] }
serde_json = "*"
async-trait = "*"
axum = "*"
tower-http = { version = "*", features = ["cors"] }
tokio = { version = "*", features = ["rt-multi-thread", "macros", "net"] }
clap = { version = "*", features = ["derive"] }
env_logger = "*"

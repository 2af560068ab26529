[package]
name = "fluvius"
version = "0.1.0"
edition = "2021"
publish = false

[dependencies]
chrono = { version = "0.4", features = ["serde"] }
serde = { version = "1", features = ["derive"] }
serde_json = "1"
dashmap = "6"
thiserror = "2"
toml = "0.8"
tokio = { version = "1", features = ["full"] }
tokio-tungstenite = "*"
futures = "0.3"
geo = "*"
rstar = "*"
async-trait = "0.1"

[dev-dependencies]
tempfile = "3"

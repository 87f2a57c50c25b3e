[package]
name = "gocqhttp"
version = "0.1.0"
edition = "2021"
publish = false

[dependencies]
async-trait = "*"
log = "*"
reqwest = { version = "*", default-features = false, features = ["json"] }
serde = { version = "*", features = ["derive"] }
serde_json = "*"
serde_yaml = "*"
tokio = { version = "*", features = ["net", "rt"] }
tokio-tungstenite = "*"

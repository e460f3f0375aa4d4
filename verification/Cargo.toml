[package]
name = "deputui"
version = "0.1.0"
edition = "2021"
publish = false

[dependencies]
anyhow = "1"
async-h1 = "2"
async-native-tls = "0.5"
clap = { version = "4", features = ["derive"] }
crossterm = { version = "*", features = ["event-stream"] }
futures = "0.3"
http-types = "2"
ratatui = "*"
serde = { version = "1", features = ["derive"] }
serde_json = "1"
smol = "2"
url = "2"

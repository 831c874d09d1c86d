[package]
name = "rshell_core"
version = "0.1.0"
edition = "2021"
publish = false

[dependencies]
anyhow = "*"
async-std = "*"
async-trait = "*"
futures = "*"
russh = "*"
russh-keys = "*"
russh-sftp = "*"
serde = { version = "*", features = ["derive"] }
serde_json = "*"
suppaftp = { version = "*", features = ["async", "async-native-tls"] }
tokio = { version = "*", features = ["full"] }
tokio-tungstenite = "*"
tokio-util = "*"

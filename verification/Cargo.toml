[package]
name = "clipsync"
version = "0.1.0"
edition = "2021"
publish = false

[dependencies]
base64 = "*"
uuid = { version = "*", features = ["v4"] }
chrono = "*"
serde = { version = "*", features = ["derive"] }
serde_json = "*"
tokio = { version = "*", features = ["rt", "rt-multi-thread", "net", "io-util", "time", "sync", "macros"] }
arboard = "*"
image = { version = "*", default-features = false, features = ["png"] }

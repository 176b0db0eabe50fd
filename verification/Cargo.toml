[package]
name = "pc_sharer"
version = "2.0.0"
edition = "2021"
publish = false

[dependencies]
arboard = "3"
image = { version = "0.25", default-features = false, features = ["png"] }
serde = { version = "1", features = ["derive"] }
serde_json = "1"
tokio = { version = "1", features = ["fs", "io-util", "net", "rt", "sync", "time"] }
uuid = { version = "1", features = ["v4"] }
walkdir = "2"

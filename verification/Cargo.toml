[package]
name = "recopy_core"
version = "0.1.0"
edition = "2021"
publish = false

[dependencies]
sha2 = "*"
uuid = { version = "*", features = ["v4"] }
image = "*"
chrono = "*"
serde = { version = "*", features = ["derive"] }
serde_json = "*"

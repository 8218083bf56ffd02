[package]
name = "flowsync_core"
version = "0.1.0"
edition = "2021"
publish = false

[dependencies]
aes-gcm = "*"
getrandom = "*"
serde = { version = "*", features = ["derive"] }

[package]
name = "chat_relay"
version = "0.1.0"
edition = "2021"
publish = false

[dependencies]
uuid = { version = "1", features = ["v4"] }
async-std = "1"
async-tungstenite = { version = "*", features = ["async-std-runtime"] }
futures = "0.3"
async-channel = "2"

[package]
name = "haven_transfer"
version = "0.1.0"
edition = "2021"
publish = false

[dependencies]
aes-gcm = "0.10"
base64 = "0.22"
bytes = "1"
crossbeam-channel = "0.5"
hex = "0.4"
hkdf = "0.12"
jsonwebtoken = "9"
log = "0.4"
rand = "0.8"
serde = { version = "1", features = ["derive"] }
serde_json = "1"
sha2 = "0.10"
socket2 = "0.5"
tokio = { version = "1", features = ["net", "rt", "rt-multi-thread", "time", "sync", "macros", "io-util"] }
uuid = { version = "1", features = ["v4", "serde"] }

[package]
name = "rustty"
version = "0.1.0"
edition = "2021"
publish = false

[dependencies]
vte = "=0.13.1"
uuid = { version = "=1.29.0", features = ["v4"] }
serde = { version = "=1.0.229", features = ["derive"] }
serde_json = "=1.0.154"
dirs = "=5.0.1"
secrecy = { version = "0.8", features = ["serde"] }
zeroize = "1"
aes-gcm = "0.10"
rand = "0.8"
hex = "0.4"
keyring = "2"

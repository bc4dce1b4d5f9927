[package]
name = "tunnel_protocol"
version = "0.1.0"
edition = "2021"
publish = false

[dependencies]
aes = "=0.8.4"
cfb8 = "=0.8.1"
flate2 = "=1.1.10"
bytes = "=1.12.1"
uuid = { version = "=1.29.0", features = ["serde"] }
rsa = "=0.9.10"
rsa-der = "*"
rand = "=0.8.8"
tokio = { version = "=1.54.1", features = ["net", "io-util", "rt-multi-thread", "macros"] }
serde = { version = "=1.0.229", features = ["derive"] }
serde_json = "=1.0.154"
anyhow = "=1.0.104"
log = "=0.4.34"
simple_logger = "*"

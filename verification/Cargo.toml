[package]
name = "magicsock"
version = "0.1.0"
edition = "2021"
publish = false

[dependencies]
base64 = "=0.23.1"
crypto_box = { version = "=0.9.1", features = ["chacha20"] }
governor = "=0.10.4"
rand = "=0.10.3"
url = "=2.5.8"
tokio = { version = "=1.53.2", features = ["rt", "sync", "time", "macros"] }

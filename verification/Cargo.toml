[package]
name = "vhm_core"
version = "0.1.0"
edition = "2021"
publish = false

[dependencies]
serde_json = { version = "=1.0.154", features = ["float_roundtrip"] }
base64 = "=0.22.1"
flate2 = "=1.1.10"
sha2 = "=0.10.9"
hex = "=0.4.3"

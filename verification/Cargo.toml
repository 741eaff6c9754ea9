[package]
name = "voxtral_weights"
version = "0.1.0"
edition = "2021"
publish = false

[dependencies]
half = "=2.7.1"
safetensors = "=0.8.0"
serde_json = "=1.0.154"
tracing = "=0.1.44"

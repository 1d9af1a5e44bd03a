[package]
name = "llama_cpp_config"
version = "0.1.0"
edition = "2021"
publish = false

[dependencies]
anyhow = "=1.0.104"
clap = { version = "=4.6.7", features = ["derive"] }
if-addrs = "=0.15.0"
serde_json = { version = "=1.0.154", features = ["float_roundtrip"] }

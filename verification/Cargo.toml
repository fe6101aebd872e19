[package]
name = "mc_rust_server"
version = "0.1.0"
edition = "2021"
publish = false

[dependencies]
num-traits = "0.2"
serde_json = "1"
tokio = { version = "1", features = ["net", "io-util", "rt", "rt-multi-thread", "macros"] }

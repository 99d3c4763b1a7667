[package]
name = "rpcquickly"
version = "0.1.0"
edition = "2021"
publish = false

[dependencies]
async-bincode = "=0.8.0"
delegate = "=0.13.5"
futures = "=0.3.34"
serde = { version = "=1.0.229", features = ["derive"] }
thiserror = "=2.0.21"
tokio = { version = "=1.54.1", features = ["net", "io-util", "rt"] }

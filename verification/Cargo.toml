[package]
name = "anycable"
version = "0.1.0"
edition = "2021"
publish = false

[dependencies]
futures = "0.1"
tungstenite = "0.9"
tokio-tungstenite = "0.9"
tokio = "0.1"
redis-async = "0.4"
serde_json = "1"
grpcio = "0.4"
protobuf = "2"

[package]
name = "merged_order_book"
version = "0.1.0"
edition = "2021"
publish = false

[dependencies]
anyhow = "=1.0.104"
futures-util = "=0.3.34"
prost = "=0.14.4"
tokio = { version = "=1.53.2", features = ["full"] }
tokio-stream = { version = "=0.1.19", features = ["sync"] }
tokio-tungstenite = "=0.30.0"
tonic = "=0.14.6"
tonic-prost = "*"

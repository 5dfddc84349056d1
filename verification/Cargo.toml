[package]
name = "tensor_trade_stream"
version = "0.1.0"
edition = "2021"
publish = false

[dependencies]
anyhow = "*"
async-tungstenite = { version = "*", features = ["tokio-runtime"] }
eyre = "*"
futures = "*"
graphql_client = "*"
graphql-ws-client = "*"
serde = { version = "*", features = ["derive"] }
serde_json = "*"
tokio = { version = "*", features = ["full"] }
tokio-stream = { version = "*", features = ["sync"] }
tokio-tungstenite = "*"
url = "*"
uuid = { version = "*", features = ["v4"] }

[package]
name = "rpc_gateway"
version = "0.1.0"
edition = "2021"
publish = false

[dependencies]
anyhow = "1"
async-trait = "0.1"
futures = "0.3"
futures-util = "0.3"
garde = { version = "*", features = ["derive"] }
http-body = "1"
hyper = "1"
jsonrpsee = { version = "*", features = ["server", "ws-client"] }
opentelemetry = "*"
serde = { version = "1", features = ["derive"] }
tokio = { version = "1", features = ["rt", "macros", "time", "sync"] }
tower = "*"
tracing = "0.1"

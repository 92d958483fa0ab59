[package]
name = "roomtalk"
version = "0.1.0"
edition = "2021"
publish = false

[dependencies]
uuid = { version = "1", features = ["v4", "serde"] }
tokio = { version = "1", features = ["rt-multi-thread", "net", "sync", "macros", "io-util"] }
tokio-tungstenite = "*"
futures-util = "0.3"
anyhow = "1"
redis = { version = "*", features = ["cluster-async", "tokio-comp"] }

[dev-dependencies]
bincode = "1"

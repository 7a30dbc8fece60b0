[package]
name = "proxy_connect"
version = "0.1.0"
edition = "2021"
publish = false

[dependencies]
cidr = "0.2"
hyper-util = { version = "0.1", features = ["client", "client-legacy", "http1", "tokio"] }
rand = "0.8"
tokio = { version = "1", features = ["net", "rt", "io-util", "time"] }
tracing = "0.1"

[dev-dependencies]
http = "1"
tower-service = "0.3"

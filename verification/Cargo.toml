[package]
name = "gateway_routing"
version = "0.1.0"
edition = "2021"
publish = false

[dependencies]
dashmap = "6"
rand = "0.8"
tokio = { version = "1", features = ["rt-multi-thread", "macros", "net", "time", "io-util"] }
hyper = { version = "1", features = ["server", "http1"] }
hyper-util = { version = "0.1", features = ["tokio"] }
http-body-util = "0.1"
pingora-core = "*"
pingora-proxy = "*"
async-trait = "0.1"
anyhow = "1"
tracing = "0.1"
tracing-subscriber = { version = "0.3", features = ["env-filter", "fmt"] }

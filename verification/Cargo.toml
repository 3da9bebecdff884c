[package]
name = "progenitor"
version = "0.1.0"
edition = "2021"
publish = false

[dependencies]
bytes = "1"
uuid = { version = "1", features = ["v4"] }
serde_json = "1"
async-trait = "0.1"
log = "0.4"
tokio = { version = "1", features = ["rt", "rt-multi-thread", "net", "macros"] }
hyper = { version = "1", features = ["server", "http1"] }
http-body-util = "0.1"

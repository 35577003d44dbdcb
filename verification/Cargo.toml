[package]
name = "rhodium"
version = "0.1.0"
edition = "2021"
publish = false

[dependencies]
hyper = { version = "0.14", features = ["full"] }
tokio = { version = "1", features = ["net", "rt", "rt-multi-thread", "time", "macros"] }
tokio-rustls = "0.22"
tokio-stream = { version = "0.1", features = ["net"] }
futures-util = "0.3"
async-trait = "0.1"

[package]
name = "hapi"
version = "0.1.0"
edition = "2021"
publish = false

[dependencies]
regex = "1"
serde = { version = "1", features = ["derive"] }
serde_json = "1"
tokio = { version = "1", features = ["full"] }
hyper = { version = "0.14", features = ["full"] }
uuid = { version = "1", features = ["v4"] }
log = "0.4"
simple_logger = "4"
futures-util = "0.3"

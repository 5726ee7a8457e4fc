[package]
name = "beamng_proto"
version = "0.1.0"
edition = "2021"
publish = false

[dependencies]
rmpv = "*"
tokio = { version = "*", default-features = false, features = ["net", "io-util", "sync", "rt"] }
serde_json = { version = "*", features = ["preserve_order"] }
uuid = { version = "*", features = ["v4"] }
shared_memory = "*"

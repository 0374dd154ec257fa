[package]
name = "mc_util_serial"
version = "0.1.0"
edition = "2021"
publish = false

[dependencies]
ciborium = "0.2"
prost = "0.12"
protobuf = "2.27"
serde = { version = "1", features = ["derive"] }
serde_with = "3"

[dev-dependencies]
serde_json = "1"

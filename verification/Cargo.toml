[package]
name = "ethersync_protocol"
version = "0.1.0"
edition = "2021"
publish = false

[dependencies]
prost = "=0.14.4"
sha2 = "=0.11.1"
uuid = { version = "=1.29.0", features = ["v4"] }
syn = { version = "=2.0.119", features = ["full"] }
quote = "=1.0.47"

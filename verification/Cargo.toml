[package]
name = "pact_protobuf_plugin"
version = "0.1.0"
edition = "2021"
publish = false

[dependencies]
prost = "=0.13.5"
prost-types = "=0.13.5"
tonic = { version = "=0.12.3", default-features = false }
clap = { version = "=4.6.7", features = ["cargo"] }
uuid = { version = "=1.29.0", features = ["v4"] }
base64 = "=0.22.1"
rand = "0.8"

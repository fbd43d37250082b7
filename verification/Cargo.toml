[package]
name = "kudu"
version = "0.1.0"
edition = "2021"
publish = false

[dependencies]
byteorder = "1"
bytes = "1"
futures = "0.1"
prost = { version = "*", default-features = false, features = ["std"] }
protobuf = "*"
tokio-threadpool = "0.1"

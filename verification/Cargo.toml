[package]
name = "grpc_rs"
version = "0.1.0"
edition = "2021"
publish = false

[dependencies]
base64 = "0.22"
bytes = "1"
flate2 = "1"
h2 = "0.4"
http = "1"
prost = "0.13"
rustls = { version = "0.23", default-features = false, features = ["ring", "std", "tls12"] }
tokio = { version = "1", features = ["rt-multi-thread", "net", "io-util", "sync", "time", "macros"] }
tokio-rustls = { version = "0.26", default-features = false, features = ["ring", "tls12"] }

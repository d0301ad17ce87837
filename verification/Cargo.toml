[package]
name = "expressgateway"
version = "0.1.0"
edition = "2021"
publish = false

[dependencies]
anyhow = "1"
arc-swap = "1"
bytes = "1"
caps = "*"
dashmap = "6"
futures-util = "0.3"
h2 = "0.4"
http = "1"
http-body-util = "0.1"
hyper = { version = "1", features = ["full"] }
hyper-util = { version = "0.1", features = ["full"] }
murmur3 = "*"
parking_lot = "0.12"
prometheus = { version = "*", default-features = false }
quiche = "*"
rand = "*"
rcgen = "*"
ring = "0.17"
rustls = { version = "0.23", default-features = false, features = ["ring", "std", "tls12"] }
rustls-pki-types = "1"
serde_json = "1"
sha2 = "0.10"
tokio = { version = "1", features = ["full"] }
tokio-rustls = { version = "0.26", default-features = false, features = ["ring", "tls12"] }
tokio-tungstenite = "0.24"
tokio-util = { version = "0.7", features = ["full"] }
tracing = "0.1"

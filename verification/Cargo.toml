[package]
name = "denaria_net"
version = "0.1.0"
edition = "2021"
publish = false

[dependencies]
crossbeam = "*"
serde_json = "*"

[dependencies.reqwest]
version = "*"
default-features = false
features = ["blocking", "json", "rustls-tls"]

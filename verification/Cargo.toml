[package]
name = "tokio_solicit"
version = "0.1.0"
edition = "2021"
publish = false

[dependencies]
solicit = "=0.4.4"
futures = "=0.1.31"
tokio-core = "=0.1.18"
tokio-proto = "=0.1.1"
tokio-service = "=0.1.0"
openssl = "=0.10.82"
tokio-openssl = "=0.2.1"
tokio-io = "=0.1.13"
log = "=0.3.9"

[package]
name = "grpc_framing"
version = "0.1.0"
edition = "2021"
publish = false

[dependencies]
bytes = "=0.5.6"
httpbis = "=0.9.1"

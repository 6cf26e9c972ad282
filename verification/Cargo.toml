[package]
name = "crisper_client"
version = "0.1.0"
edition = "2021"
publish = false

[dependencies]
prost = { version = "*", default-features = false, features = ["std"] }
zmq = "*"

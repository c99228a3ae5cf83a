[package]
name = "write_queue"
version = "0.1.0"
edition = "2021"
publish = false

[dependencies]
capnp = "*"
futures = "0.1"

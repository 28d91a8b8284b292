[package]
name = "tokio_thrift"
version = "0.1.0"
edition = "2021"
publish = false

[dependencies]

[dev-dependencies]
byteorder = "1"

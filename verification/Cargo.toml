[package]
name = "nodedb_data"
version = "0.1.0"
edition = "2021"
publish = false

[dependencies]
chrono = "*"
io-uring = "*"
rmpv = "*"
rust_decimal = "*"
serde_json = "*"
sonic-rs = "*"
zerompk = "*"

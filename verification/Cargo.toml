[package]
name = "dbf_reader"
version = "0.1.0"
edition = "2021"
publish = false

[dependencies]
arrayvec = "0.7"
chrono = { version = "0.4", default-features = false, features = ["alloc", "std"] }
fallible-streaming-iterator = "0.1"
serde = "1"
thiserror = "2"

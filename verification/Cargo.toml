[package]
name = "fastwarc"
version = "0.1.0"
edition = "2021"
publish = false

[dependencies]
base64 = "0.22"
chrono = { version = "0.4", default-features = false, features = ["clock"] }
encoding = "0.2"
md-5 = "0.10"
parking_lot = "0.12"
sha1 = "0.10"
uuid = { version = "1", features = ["v4"] }

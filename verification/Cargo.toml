[package]
name = "smmdb_core"
version = "0.1.0"
edition = "2021"
publish = false

[dependencies]
brotli2 = "=0.3.2"
image = { version = "=0.25.10", default-features = false, features = ["jpeg"] }

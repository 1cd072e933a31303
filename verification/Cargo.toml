[package]
name = "spawn_relay"
version = "0.1.0"
edition = "2021"
publish = false

[dependencies]
futures = "=0.3.34"
napi = { version = "=2.16.17", default-features = false, features = ["napi4", "tokio_rt", "compat-mode"] }
napi-derive = "=2.16.13"
tokio = { version = "=1.54.1", features = ["process", "io-util", "rt", "rt-multi-thread"] }

[package]
name = "wasi_keyvalue_redis"
version = "0.1.0"
edition = "2021"
rust-version = "1.95"
publish = false

[dependencies]
redis = "*"
wasmtime = { version = "42", default-features = false, features = ["runtime", "component-model", "std"] }

[package]
name = "wrpc_blobstore"
version = "0.1.0"
edition = "2021"
publish = false

[dependencies]
anyhow = "=1.0.104"
async-trait = "=0.1.92"
bytes = "=1.12.1"
futures = "=0.3.34"
tracing = "=0.1.44"
wrpc-transport = "=0.30.0"
tokio = { version = "=1.54.1", features = ["io-util"] }
tokio-util = { version = "=0.7.20", features = ["codec", "io"] }
wit-bindgen-core = "=0.59.0"
wit-bindgen-wrpc-rust = "=0.12.0"
syn = { version = "=2.0.119", features = ["full"] }
quote = "=1.0.47"
proc-macro2 = "=1.0.107"
prettyplease = "=0.2.37"

[package]
name = "mapreduce_wasm"
version = "0.1.0"
edition = "2021"
publish = false

[dependencies]
uuid = { version = "1", features = ["v4"] }
anyhow = "1"
futures = "0.3"
serde = { version = "1", features = ["derive"] }
tarpc = { version = "0.35", features = ["full"] }
tokio = { version = "1", features = ["full"] }
tracing = "0.1"
tracing-subscriber = { version = "0.3", features = ["env-filter"] }
wasmtime = "26"
wasmtime-wasi = "26"

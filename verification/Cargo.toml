[package]
name = "aggligator"
version = "0.9.6"
edition = "2021"
publish = false

[dependencies]
byteorder = "=1.5.0"
bytes = "=1.12.1"
crc = "=3.4.0"
futures = "=0.3.34"
js-sys = "0.3"
rand = { version = "=0.9.5", features = ["small_rng"] }
rand_core = { version = "=0.6.4", features = ["getrandom"] }
serde = { version = "=1.0.229", features = ["derive"] }
serde_json = "=1.0.154"
tokio = { version = "=1.54.1", features = ["sync", "time", "rt", "macros", "io-util", "fs"] }
tokio-stream = { version = "=0.1.19", features = ["time"] }
tokio-util = { version = "=0.7.20", features = ["codec"] }
tracing = "=0.1.44"
wasm-bindgen = "0.2"
wasm-bindgen-futures = "0.4"
web-sys = { version = "0.3", features = ["Performance", "Window", "WorkerGlobalScope"] }
x25519-dalek = "=2.0.1"

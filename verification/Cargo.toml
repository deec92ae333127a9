[package]
name = "capsule_runtime"
version = "0.1.0"
edition = "2021"
publish = false

[dependencies]
base64 = "=0.22.1"
getrandom = "=0.3.4"
hmac = "=0.12.1"
sha2 = "=0.10.9"
http = "=1.5.0"
url = "=2.5.8"
serde = { version = "=1.0.229", features = ["derive"] }
serde_json = { version = "=1.0.154", features = ["preserve_order"] }
serde_yaml = "=0.9.34"
uuid = { version = "=1.29.0", features = ["v4", "v7"] }
libc = "=0.2.191"
tokio = { version = "=1.54.1", features = ["net", "rt", "rt-multi-thread", "io-util", "sync", "time", "macros"] }
wasmtime = { version = "=36.0.20", default-features = false, features = ["runtime", "component-model", "std", "async"] }

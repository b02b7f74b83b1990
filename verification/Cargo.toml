[package]
name = "openfang-channels"
version = "0.1.0"
edition = "2021"
publish = false

[dependencies]
async-trait = "0.1"
chrono = "=0.4.45"
dashmap = "=6.2.1"
futures = "0.3"
parking_lot = "0.12"
reqwest = { version = "=0.12.28", default-features = false, features = ["json", "multipart", "rustls-tls", "stream"] }
serde_json = "=1.0.154"
songbird = { version = "=0.5.0", default-features = false, features = ["driver", "receive", "rustls", "tws"] }
tokio = { version = "1", features = ["io-util", "macros", "net", "process", "rt-multi-thread", "sync", "time"] }
tokio-stream = "0.1"
tokio-tungstenite = { version = "=0.24.0", features = ["rustls-tls-webpki-roots"] }
tracing = "0.1"
zeroize = "=1.9.1"

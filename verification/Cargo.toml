[package]
name = "tonia-sdk"
version = "0.4.0"
edition = "2021"
publish = false

[dependencies]
serde_json = "=1.0.154"
url = "=2.5.8"
reqwest = { version = "=0.12.28", default-features = false, features = ["rustls-tls", "json", "stream", "multipart"] }
tokio = { version = "=1.54.1", features = ["macros", "rt-multi-thread", "time", "net", "fs"] }
futures-util = { version = "=0.3.34", features = ["sink"] }
bytes = "=1.12.1"
tokio-tungstenite = { version = "=0.30.0", features = ["rustls-tls-webpki-roots"] }
base64 = "=0.22.1"
thiserror = "=2.0.21"

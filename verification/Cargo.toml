[package]
name = "atmoq"
version = "0.1.0"
edition = "2021"
publish = false

[dependencies]
anyhow = "1"
base64 = "=0.22.1"
bytes = "=1.12.1"
ciborium = "=0.2.2"
clap = { version = "4", features = ["derive"] }
data-encoding = "=2.11.1"
futures-util = "0.3"
rustls = "0.23"
rustls-pemfile = "2"
serde_json = "=1.0.154"
tokio = { version = "1", features = ["full"] }
tokio-rustls = "0.26"
tokio-tungstenite = { version = "=0.30.0", features = ["rustls-tls-webpki-roots"] }
tracing = "0.1"
tracing-subscriber = { version = "0.3", features = ["env-filter"] }
url = "=2.5.8"
moq-transport = "=0.10.0"
moq-native-ietf = "=0.5.5"

[package]
name = "dummy_ambient_client"
version = "0.1.0"
edition = "2021"
publish = false

[dependencies]
anyhow = "=1.0.104"
quinn = "=0.10.2"
rand = "=0.8.8"
reqwest = { version = "=0.11.27", default-features = false, features = ["rustls-tls"] }
rustls = "=0.21.12"
rustls-native-certs = "=0.6.3"
tokio = { version = "=1.54.1", features = ["rt-multi-thread", "macros", "net", "signal", "io-util", "sync"] }
tracing = "=0.1.44"
tracing-subscriber = "=0.3.23"
uuid = { version = "=1.29.0", features = ["v4"] }

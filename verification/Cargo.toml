[package]
name = "calaos_core"
version = "0.1.0"
edition = "2021"
publish = false

[dependencies]
tokio = { version = "1", features = ["full"] }
futures = "0.3"
futures-util = { version = "0.3", features = ["sink"] }
serde = { version = "1", features = ["derive"] }
serde_json = "1"
serde-xml-rs = "0.6"
serde-aux = "4"
rumqttc = { version = "0.24", default-features = false }
tokio-tungstenite = "0.21"
tokio-modbus = { version = "0.14", default-features = false, features = ["tcp"] }
tokio-rustls = { version = "0.26", default-features = false, features = ["ring", "logging", "tls12"] }
rustls-pemfile = "2"
clap = { version = "4", features = ["derive", "cargo"] }
tracing = "0.1"
tracing-subscriber = "0.3"
chrono = "0.4"

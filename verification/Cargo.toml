[package]
name = "iec104sim_core"
version = "0.1.0"
edition = "2021"
publish = false

[dependencies]
chrono = "0.4"
serde = { version = "1", features = ["derive"] }
serde_json = "1"
tokio = { version = "1", features = ["full"] }
native-tls = "0.2"
rand = "0.9"
thiserror = "2"
log = "0.4"
